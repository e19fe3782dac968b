use ssh_permit_a38::diff::{can_compare, diff_lines, DiffSegment};

fn same(s: &str) -> DiffSegment {
    DiffSegment::Same(s.to_string())
}

fn add(s: &str) -> DiffSegment {
    DiffSegment::Add(s.to_string())
}

fn rem(s: &str) -> DiffSegment {
    DiffSegment::Rem(s.to_string())
}

#[test]
fn equal_texts_show_no_change() {
    let text = "# alice\nssh-rsa AAAA1\n\n# bob\nssh-rsa AAAA2\n";
    let diff = diff_lines(text, text).unwrap();
    assert_eq!(diff, vec![same(text)]);
    assert!(diff.iter().all(|d| d.is_same()));
    assert_eq!(diff_lines("", "").unwrap(), Vec::<DiffSegment>::new());
    assert_eq!(diff_lines("\n", "\n").unwrap(), vec![same("\n")]);
}

#[test]
fn stale_block_is_removed_and_new_block_added() {
    let current = "# alice\nssh-rsa AAAA1\n\n# old\nssh-rsa OLD\n";
    let desired = "# alice\nssh-rsa AAAA1\n\n# bob\nssh-rsa AAAA2\n";
    assert_eq!(
        diff_lines(current, desired).unwrap(),
        vec![
            same("# alice\nssh-rsa AAAA1\n"),
            rem("# old\nssh-rsa OLD"),
            add("# bob\nssh-rsa AAAA2"),
            same(""),
        ]
    );
}

#[test]
fn empty_remote_file_shows_everything_as_added() {
    let desired = "# alice\nssh-rsa AAAA1\n";
    assert_eq!(diff_lines("", desired).unwrap(), vec![add(desired)]);
}

#[test]
fn diff_is_what_the_difference_crate_finds() {
    let cases = [
        ("a\nb\nc", "a\nc"),
        ("a\nb", "b\na"),
        ("", "x"),
        ("x", ""),
        ("one\ntwo\n", "one\n2\ntwo\n"),
    ];
    for (current, desired) in cases.iter() {
        let expected: Vec<DiffSegment> = difference::Changeset::new(current, desired, "\n")
            .diffs
            .into_iter()
            .map(|d| match d {
                difference::Difference::Same(s) => DiffSegment::Same(s),
                difference::Difference::Add(s) => DiffSegment::Add(s),
                difference::Difference::Rem(s) => DiffSegment::Rem(s),
            })
            .collect();
        assert_eq!(diff_lines(current, desired).unwrap(), expected);
    }
    assert_eq!(diff_lines("a\nb\nc", "a\nc").unwrap(), vec![same("a"), rem("b"), same("c")]);
}

#[test]
fn segments_are_rendered_with_their_sign() {
    assert_eq!(same("a\nb").render(), "a\nb");
    assert_eq!(add("a\nb").render(), "+a\nb");
    assert_eq!(rem("a\nb").render(), "-a\nb");
    assert_eq!(add("").render(), "+");
    assert!(same("").is_same());
    assert!(!add("").is_same());
    assert!(!rem("").is_same());
}

#[test]
fn ordinary_texts_can_be_compared() {
    assert!(can_compare("", ""));
    assert!(can_compare("a\nb\n", "c\n"));
    let long = "x\n".repeat(10_000);
    assert!(can_compare(&long, &long));
}

/// The old text and the new text as a difference accounts for them.
fn texts_of(diff: &[DiffSegment]) -> (String, String) {
    let mut old: Vec<&str> = Vec::new();
    let mut new: Vec<&str> = Vec::new();
    for segment in diff {
        match segment {
            DiffSegment::Same(s) => {
                old.push(s);
                new.push(s);
            }
            DiffSegment::Rem(s) => old.push(s),
            DiffSegment::Add(s) => new.push(s),
        }
    }
    (old.join("\n"), new.join("\n"))
}

#[test]
fn a_difference_accounts_for_both_texts() {
    let fixed = [
        ("", ""),
        ("", "\n"),
        ("\n", ""),
        ("\n", "\n\n"),
        ("a", "a\n"),
        ("a\n", "c\n"),
        ("a\nb", "b\na"),
        ("# alice\nssh-rsa AAAA1\n", "# alice\nssh-rsa AAAA1\n\n# bob\nssh-rsa AAAA2\n"),
        ("x\n\n\ny", "\nx\ny\n"),
    ];
    for (current, desired) in fixed.iter() {
        let diff = diff_lines(current, desired).unwrap();
        assert_eq!(texts_of(&diff), (current.to_string(), desired.to_string()));
    }

    // many small texts over a few lines, one of them empty
    let lines = ["a", "b", "", "c"];
    let mut seed: u32 = 12345;
    let mut next = move || {
        seed = seed.wrapping_mul(1103515245).wrapping_add(12345);
        (seed >> 16) as usize
    };
    for _ in 0..3000 {
        let mut make = || {
            let n = next() % 6;
            let picked: Vec<&str> = (0..n).map(|_| lines[next() % lines.len()]).collect();
            picked.join("\n")
        };
        let current = make();
        let desired = make();
        let diff = diff_lines(&current, &desired).unwrap();
        assert_eq!(texts_of(&diff), (current.clone(), desired.clone()), "{:?} -> {:?}", current, desired);
        if current == desired {
            assert!(diff.iter().all(|d| d.is_same()));
        }
        for pair in diff.windows(2) {
            assert_ne!(kind(&pair[0]), kind(&pair[1]), "{:?} -> {:?}", current, desired);
        }
    }
}

fn kind(segment: &DiffSegment) -> u8 {
    match segment {
        DiffSegment::Same(_) => 0,
        DiffSegment::Add(_) => 1,
        DiffSegment::Rem(_) => 2,
    }
}

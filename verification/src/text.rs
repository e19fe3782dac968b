//! Text handling shared by the rest of the crate.
//!
//! Every string is modelled by its view, the sequence of its characters.

use vstd::prelude::*;
use vstd::string::*;
use vstd::utf8::*;

verus! {

// Strings and their characters

/// The views of the strings of a vector.
pub open spec fn views(v: Seq<String>) -> Seq<Seq<char>> {
    v.map_values(|s: String| s@)
}

/// Whether two string slices hold the same characters.
pub fn str_eq(a: &str, b: &str) -> (same: bool)
    ensures
        same == (a@ == b@),
{
    let x = a.as_bytes();
    let y = b.as_bytes();
    proof {
        encode_utf8_decode_utf8(a@);
        encode_utf8_decode_utf8(b@);
    }
    if x.len() != y.len() {
        return false;
    }
    let n: usize = x.len();
    let mut i: usize = 0;
    while i < n
        invariant
            n == x@.len(),
            n == y@.len(),
            i <= n,
            a@ == b@ ==> x@ == y@,
            forall|j: int| 0 <= j < i ==> x@[j] == y@[j],
        decreases n - i,
    {
        if x[i] != y[i] {
            return false;
        }
        i += 1;
    }
    assert(x@ =~= y@);
    true
}

/// The characters of a string, in order.
pub fn to_chars(s: &str) -> (chars: Vec<char>)
    ensures
        chars@ == s@,
{
    let mut chars: Vec<char> = Vec::new();
    for c in it: s.chars()
        invariant
            chars@ == it.seq().take(it.index() as int),
            it.seq() == s@,
    {
        chars.push(c);
    }
    chars
}

/// Whether two texts hold the same characters.
pub fn chars_eq(a: &Vec<char>, b: &Vec<char>) -> (same: bool)
    ensures
        same == (a@ == b@),
{
    if a.len() != b.len() {
        return false;
    }
    let mut i: usize = 0;
    while i < a.len()
        invariant
            a@.len() == b@.len(),
            i <= a@.len(),
            forall|j: int| 0 <= j < i ==> a@[j] == b@[j],
        decreases a@.len() - i,
    {
        if a[i] != b[i] {
            return false;
        }
        i += 1;
    }
    assert(a@ =~= b@);
    true
}

/// Whether `prefix` stands at the start of `s`.
pub open spec fn has_prefix(s: Seq<char>, prefix: Seq<char>) -> bool {
    prefix.len() <= s.len() && s.take(prefix.len() as int) == prefix
}

/// Decides whether a string starts with a prefix.
pub fn starts_with(s: &str, prefix: &str) -> (found: bool)
    ensures
        found == has_prefix(s@, prefix@),
{
    let a = to_chars(s);
    let b = to_chars(prefix);
    if b.len() > a.len() {
        return false;
    }
    let mut i: usize = 0;
    while i < b.len()
        invariant
            a@ == s@,
            b@ == prefix@,
            b@.len() <= a@.len(),
            i <= b@.len(),
            forall|j: int| 0 <= j < i ==> a@[j] == b@[j],
        decreases b@.len() - i,
    {
        if a[i] != b[i] {
            assert(a@.take(b@.len() as int)[i as int] != b@[i as int]);
            return false;
        }
        i += 1;
    }
    assert(a@.take(b@.len() as int) =~= b@);
    true
}

/// Calls `core::str::from_utf8`: there is a string exactly where the bytes
/// are valid UTF-8, and it is made of those bytes.
#[verifier::external_body]
fn utf8_str(bytes: &[u8]) -> (text: Option<&str>)
    ensures
        text is Some == valid_utf8(bytes@),
        text matches Some(t) ==> t.spec_bytes() == bytes@,
{
    match core::str::from_utf8(bytes) {
        Ok(text) => Some(text),
        Err(_) => None,
    }
}

/// The text that bytes encode in UTF-8; none where they are not valid UTF-8.
pub fn decode(bytes: &Vec<u8>) -> (text: Option<String>)
    ensures
        text is Some == valid_utf8(bytes@),
        text matches Some(t) ==> t@ == decode_utf8(bytes@),
{
    match utf8_str(bytes.as_slice()) {
        Some(t) => {
            proof {
                encode_utf8_decode_utf8(t@);
            }
            Some(t.to_owned())
        },
        None => None,
    }
}

/// The lower-case form of a text, as `str::to_lowercase` gives it.
pub uninterp spec fn lowercase(s: Seq<char>) -> Seq<char>;

/// Calls `str::to_lowercase`, which goes by the Unicode property `Lowercase`
/// and may change the number of characters; the result is only named here.
#[verifier::external_body]
pub(crate) fn to_lowercase(s: &str) -> (out: String)
    ensures
        out@ == lowercase(s@),
{
    s.to_lowercase()
}

// Lexicographic order

/// Strict lexicographic order on texts, characters compared by code point.
pub open spec fn lex_lt(a: Seq<char>, b: Seq<char>) -> bool
    decreases a.len(),
{
    if b.len() == 0 {
        false
    } else if a.len() == 0 {
        true
    } else if a[0] != b[0] {
        a[0] < b[0]
    } else {
        lex_lt(a.drop_first(), b.drop_first())
    }
}

/// No text comes before itself.
pub proof fn lemma_lex_irreflexive(a: Seq<char>)
    ensures
        !lex_lt(a, a),
    decreases a.len(),
{
    if a.len() > 0 {
        lemma_lex_irreflexive(a.drop_first());
    }
}

/// Of two different texts one comes before the other.
pub proof fn lemma_lex_total(a: Seq<char>, b: Seq<char>)
    ensures
        a == b || lex_lt(a, b) || lex_lt(b, a),
    decreases a.len(),
{
    if a.len() > 0 && b.len() > 0 && a[0] == b[0] {
        lemma_lex_total(a.drop_first(), b.drop_first());
        if a.drop_first() == b.drop_first() {
            assert(a =~= seq![a[0]] + a.drop_first());
        }
    }
}

/// The order never holds both ways.
pub proof fn lemma_lex_asymmetric(a: Seq<char>, b: Seq<char>)
    ensures
        !(lex_lt(a, b) && lex_lt(b, a)),
    decreases a.len(),
{
    if a.len() > 0 && b.len() > 0 && a[0] == b[0] {
        lemma_lex_asymmetric(a.drop_first(), b.drop_first());
    }
}

/// The order is transitive.
pub proof fn lemma_lex_transitive(a: Seq<char>, b: Seq<char>, c: Seq<char>)
    requires
        lex_lt(a, b),
        lex_lt(b, c),
    ensures
        lex_lt(a, c),
    decreases a.len(),
{
    if a.len() > 0 && b.len() > 0 && c.len() > 0 {
        if a[0] == b[0] && b[0] == c[0] {
            lemma_lex_transitive(a.drop_first(), b.drop_first(), c.drop_first());
        }
    }
}

/// Decides the lexicographic order of two texts.
pub fn chars_lt(a: &Vec<char>, b: &Vec<char>) -> (before: bool)
    ensures
        before == lex_lt(a@, b@),
{
    let mut i: usize = 0;
    assert(a@.skip(0) =~= a@ && b@.skip(0) =~= b@);
    while i < a.len() && i < b.len()
        invariant
            i <= a@.len(),
            i <= b@.len(),
            lex_lt(a@, b@) == lex_lt(a@.skip(i as int), b@.skip(i as int)),
        decreases a@.len() - i,
    {
        let x = a[i];
        let y = b[i];
        proof {
            assert(a@.skip(i as int).drop_first() =~= a@.skip(i as int + 1));
            assert(b@.skip(i as int).drop_first() =~= b@.skip(i as int + 1));
        }
        if x != y {
            return x < y;
        }
        i += 1;
    }
    i < b.len()
}

/// Each text comes before all that follow it; so none occurs twice.
pub open spec fn strictly_sorted(s: Seq<Seq<char>>) -> bool {
    forall|i: int, j: int| 0 <= i < j < s.len() ==> lex_lt(#[trigger] s[i], #[trigger] s[j])
}

/// A strictly sorted sequence is determined by the set of its members.
pub proof fn lemma_strictly_sorted_unique(a: Seq<Seq<char>>, b: Seq<Seq<char>>)
    requires
        strictly_sorted(a),
        strictly_sorted(b),
        a.to_set() == b.to_set(),
    ensures
        a == b,
    decreases a.len(),
{
    if a.len() == 0 || b.len() == 0 {
        if a.len() > 0 {
            assert(a.to_set().contains(a[0]));
            assert(b.contains(a[0]));
        }
        if b.len() > 0 {
            assert(b.to_set().contains(b[0]));
            assert(a.contains(b[0]));
        }
        assert(a =~= b);
    } else {
        assert(a.to_set().contains(a[0]));
        assert(b.to_set().contains(b[0]));
        assert(b.contains(a[0]));
        assert(a.contains(b[0]));
        let k = choose|k: int| 0 <= k < a.len() && a[k] == b[0];
        let m = choose|m: int| 0 <= m < b.len() && b[m] == a[0];
        if k > 0 && m > 0 {
            assert(lex_lt(a[0], a[k]));
            assert(lex_lt(b[0], b[m]));
            lemma_lex_asymmetric(a[0], b[0]);
        } else if k > 0 {
            assert(lex_lt(a[0], a[k]));
            lemma_lex_irreflexive(a[0]);
        } else if m > 0 {
            assert(lex_lt(b[0], b[m]));
            lemma_lex_irreflexive(b[0]);
        }
        assert(a[0] == b[0]);
        let ta = a.drop_first();
        let tb = b.drop_first();
        assert forall|x: Seq<char>| ta.to_set().contains(x) <==> tb.to_set().contains(x) by {
            lemma_lex_irreflexive(x);
            if ta.contains(x) {
                let i = choose|i: int| 0 <= i < ta.len() && ta[i] == x;
                assert(a[i + 1] == x);
                assert(lex_lt(a[0], a[i + 1]));
                assert(a.to_set().contains(x));
                assert(b.contains(x));
                let j = choose|j: int| 0 <= j < b.len() && b[j] == x;
                assert(tb[j - 1] == x);
            }
            if tb.contains(x) {
                let i = choose|i: int| 0 <= i < tb.len() && tb[i] == x;
                assert(b[i + 1] == x);
                assert(lex_lt(b[0], b[i + 1]));
                assert(b.to_set().contains(x));
                assert(a.contains(x));
                let j = choose|j: int| 0 <= j < a.len() && a[j] == x;
                assert(ta[j - 1] == x);
            }
        }
        assert(ta.to_set() =~= tb.to_set());
        assert forall|i: int, j: int| 0 <= i < j < ta.len() implies lex_lt(
            #[trigger] ta[i],
            #[trigger] ta[j],
        ) by {
            assert(lex_lt(a[i + 1], a[j + 1]));
        }
        assert forall|i: int, j: int| 0 <= i < j < tb.len() implies lex_lt(
            #[trigger] tb[i],
            #[trigger] tb[j],
        ) by {
            assert(lex_lt(b[i + 1], b[j + 1]));
        }
        lemma_strictly_sorted_unique(ta, tb);
        assert(a =~= seq![a[0]] + ta);
        assert(b =~= seq![b[0]] + tb);
    }
}

/// The members of `s`, each once, in lexicographic order.
pub open spec fn sorted_unique(s: Seq<Seq<char>>) -> Seq<Seq<char>> {
    choose|out: Seq<Seq<char>>| strictly_sorted(out) && out.to_set() == s.to_set()
}

/// A strictly sorted sequence with one more member, in its place. A member
/// that the sequence holds already is not added again.
pub open spec fn inserted(s: Seq<Seq<char>>, x: Seq<char>) -> Seq<Seq<char>>
    decreases s.len(),
{
    if s.len() == 0 {
        seq![x]
    } else if s.last() == x {
        s
    } else if lex_lt(s.last(), x) {
        s.push(x)
    } else {
        inserted(s.drop_last(), x).push(s.last())
    }
}

/// Inserting keeps a sequence strictly sorted and adds the member to its set.
pub proof fn lemma_inserted(s: Seq<Seq<char>>, x: Seq<char>)
    requires
        strictly_sorted(s),
    ensures
        strictly_sorted(inserted(s, x)),
        inserted(s, x).to_set() == s.to_set().insert(x),
    decreases s.len(),
{
    let out = inserted(s, x);
    if s.len() == 0 {
        assert(out.to_set() =~= s.to_set().insert(x)) by {
            assert forall|y: Seq<char>| out.to_set().contains(y) <==> y == x by {
                if y == x {
                    assert(out[0] == y);
                }
            }
        }
    } else if s.last() == x {
        assert(s.to_set().insert(x) =~= s.to_set());
    } else if lex_lt(s.last(), x) {
        s.lemma_push_to_set_commute(x);
        assert forall|i: int, j: int| 0 <= i < j < out.len() implies lex_lt(
            #[trigger] out[i],
            #[trigger] out[j],
        ) by {
            if j < s.len() {
                assert(lex_lt(s[i], s[j]));
            } else if i < s.len() - 1 {
                lemma_lex_transitive(s[i], s.last(), x);
            }
        }
    } else {
        let front = s.drop_last();
        assert forall|i: int, j: int| 0 <= i < j < front.len() implies lex_lt(
            #[trigger] front[i],
            #[trigger] front[j],
        ) by {
            assert(lex_lt(s[i], s[j]));
        }
        lemma_inserted(front, x);
        let mid = inserted(front, x);
        lemma_lex_total(s.last(), x);
        assert forall|i: int, j: int| 0 <= i < j < out.len() implies lex_lt(
            #[trigger] out[i],
            #[trigger] out[j],
        ) by {
            if j < mid.len() {
                assert(lex_lt(mid[i], mid[j]));
            } else {
                assert(mid.to_set().contains(mid[i]));
                if mid[i] != x {
                    let k = choose|k: int| 0 <= k < front.len() && front[k] == mid[i];
                    assert(lex_lt(s[k], s[s.len() - 1]));
                }
            }
        }
        mid.lemma_push_to_set_commute(s.last());
        assert(s =~= front.push(s.last()));
        front.lemma_push_to_set_commute(s.last());
        assert(out.to_set() =~= s.to_set().insert(x));
    }
}

/// `sorted_unique` is what its name says: strictly sorted, with the members
/// of the sequence it was made from, and the only such sequence.
pub proof fn lemma_sorted_unique(s: Seq<Seq<char>>)
    ensures
        strictly_sorted(sorted_unique(s)),
        sorted_unique(s).to_set() == s.to_set(),
        forall|other: Seq<Seq<char>>|
            strictly_sorted(other) && other.to_set() == s.to_set() ==> other == sorted_unique(s),
    decreases s.len(),
{
    if s.len() == 0 {
        let none = Seq::<Seq<char>>::empty();
        assert(strictly_sorted(none) && none.to_set() == s.to_set()) by {
            assert(s =~= none);
        }
    } else {
        let front = s.drop_last();
        lemma_sorted_unique(front);
        lemma_inserted(sorted_unique(front), s.last());
        assert(s =~= front.push(s.last()));
        front.lemma_push_to_set_commute(s.last());
    }
    assert forall|other: Seq<Seq<char>>|
        strictly_sorted(other) && other.to_set() == s.to_set() implies other == sorted_unique(
        s,
    ) by {
        lemma_strictly_sorted_unique(other, sorted_unique(s));
    }
}

/// Sequences with the same members give the same sorted sequence.
pub proof fn lemma_sorted_unique_by_members(a: Seq<Seq<char>>, b: Seq<Seq<char>>)
    requires
        a.to_set() == b.to_set(),
    ensures
        sorted_unique(a) == sorted_unique(b),
{
    lemma_sorted_unique(a);
    lemma_sorted_unique(b);
}

/// Sorts strings lexicographically and drops what occurs more than once.
pub fn sort_unique(list: &Vec<String>) -> (out: Vec<String>)
    ensures
        strictly_sorted(views(out@)),
        views(out@).to_set() == views(list@).to_set(),
        views(out@) == sorted_unique(views(list@)),
{
    let mut out: Vec<String> = Vec::new();
    let mut keys: Vec<Vec<char>> = Vec::new();
    let mut i: usize = 0;
    while i < list.len()
        invariant
            i <= list@.len(),
            keys@.len() == out@.len(),
            forall|k: int| 0 <= k < out@.len() ==> (#[trigger] keys@[k])@ == out@[k]@,
            strictly_sorted(views(out@)),
            views(out@).to_set() == views(list@).take(i as int).to_set(),
        decreases list@.len() - i,
    {
        let item = list[i].clone();
        let key = to_chars(item.as_str());
        let ghost before = views(out@);
        let ghost seen = views(list@).take(i as int);
        let mut j: usize = 0;
        while j < keys.len() && chars_lt(&keys[j], &key)
            invariant
                j <= keys@.len(),
                keys@.len() == out@.len(),
                before == views(out@),
                forall|k: int| 0 <= k < out@.len() ==> (#[trigger] keys@[k])@ == out@[k]@,
                forall|k: int| 0 <= k < j ==> lex_lt(#[trigger] before[k], key@),
            decreases keys@.len() - j,
        {
            j += 1;
        }
        let present = j < keys.len() && chars_eq(&keys[j], &key);
        proof {
            assert(views(list@).take(i + 1) =~= seen.push(key@));
            seen.lemma_push_to_set_commute(key@);
        }
        if !present {
            out.insert(j, item);
            keys.insert(j, key);
            proof {
                let after = views(out@);
                assert(after =~= before.insert(j as int, key@));
                assert forall|a: int, b: int| 0 <= a < b < after.len() implies lex_lt(
                    #[trigger] after[a],
                    #[trigger] after[b],
                ) by {
                    if b == j {
                        assert(lex_lt(before[a], key@));
                    } else if b > j && a == j {
                        lemma_lex_total(before[j as int], key@);
                        if b - 1 > j {
                            assert(lex_lt(before[j as int], before[b - 1]));
                            lemma_lex_transitive(key@, before[j as int], before[b - 1]);
                        }
                    } else if b > j && a < j {
                        lemma_lex_total(before[j as int], key@);
                        assert(lex_lt(before[a], key@));
                        if b - 1 > j {
                            lemma_lex_transitive(key@, before[j as int], before[b - 1]);
                        }
                        lemma_lex_transitive(before[a], key@, before[b - 1]);
                    }
                }
                assert forall|x: Seq<char>| after.to_set().contains(x) <==> before.to_set().insert(
                    key@,
                ).contains(x) by {
                    if after.contains(x) {
                        let k = choose|k: int| 0 <= k < after.len() && after[k] == x;
                        if k > j {
                            assert(before[k - 1] == x);
                        }
                    }
                    if before.contains(x) {
                        let k = choose|k: int| 0 <= k < before.len() && before[k] == x;
                        if k < j {
                            assert(after[k] == x);
                        } else {
                            assert(after[k + 1] == x);
                        }
                    }
                    if x == key@ {
                        assert(after[j as int] == x);
                    }
                }
            }
        } else {
            proof {
                assert(before[j as int] == key@);
            }
        }
        i += 1;
    }
    proof {
        assert(views(list@).take(list@.len() as int) =~= views(list@));
        let target = views(list@);
        let got = views(out@);
        assert(strictly_sorted(got) && got.to_set() == target.to_set());
        lemma_strictly_sorted_unique(got, sorted_unique(target));
    }
    out
}

// Finding and filtering

/// Where `x` first stands in `s`; the length of `s` where it does not occur.
pub open spec fn first_index<A>(s: Seq<A>, x: A) -> nat
    decreases s.len(),
{
    if s.len() == 0 || s[0] == x {
        0
    } else {
        1 + first_index(s.drop_first(), x)
    }
}

/// `first_index` is the position before which `x` does not occur and at
/// which, inside the sequence, it does.
pub proof fn lemma_first_index<A>(s: Seq<A>, x: A, k: int)
    requires
        0 <= k <= s.len(),
        forall|j: int| 0 <= j < k ==> s[j] != x,
        k < s.len() ==> s[k] == x,
    ensures
        first_index(s, x) == k,
    decreases s.len(),
{
    if k > 0 {
        let t = s.drop_first();
        lemma_first_index(t, x, k - 1);
    }
}

/// What `first_index` says of the sequence: nothing before it is `x`, and
/// inside the sequence it points at `x`.
pub proof fn lemma_first_index_found<A>(s: Seq<A>, x: A)
    ensures
        first_index(s, x) <= s.len(),
        forall|j: int| 0 <= j < first_index(s, x) ==> s[j] != x,
        first_index(s, x) < s.len() ==> s[first_index(s, x) as int] == x,
        first_index(s, x) < s.len() <==> s.contains(x),
    decreases s.len(),
{
    if s.len() > 0 && s[0] != x {
        let t = s.drop_first();
        lemma_first_index_found(t, x);
        let k = first_index(s, x);
        assert forall|j: int| 0 <= j < k implies s[j] != x by {
            if j > 0 {
                assert(t[j - 1] == s[j]);
            }
        }
        if k < s.len() {
            assert(t[k - 1] == s[k as int]);
        }
        if s.contains(x) {
            let w = choose|w: int| 0 <= w < s.len() && s[w] == x;
            assert(t[w - 1] == x);
        }
    }
}

/// Where `x` first stands in a sequence with one more member at its end.
pub proof fn lemma_first_index_push<A>(s: Seq<A>, a: A, x: A)
    ensures
        first_index(s.push(a), x) == (if first_index(s, x) < s.len() {
            first_index(s, x)
        } else if a == x {
            s.len()
        } else {
            s.len() + 1
        }),
{
    lemma_first_index_found(s, x);
    let longer = s.push(a);
    let k = first_index(s, x) as int;
    if k < s.len() {
        lemma_first_index(longer, x, k);
    } else {
        if a == x {
            lemma_first_index(longer, x, s.len() as int);
        } else {
            lemma_first_index(longer, x, s.len() as int + 1);
        }
    }
}

/// Where a string first stands in a list; the length of the list where it
/// does not occur.
pub fn position_of(list: &Vec<String>, key: &str) -> (i: usize)
    ensures
        i == first_index(views(list@), key@),
        i <= list@.len(),
        i < list@.len() <==> views(list@).contains(key@),
{
    let mut i: usize = 0;
    while i < list.len()
        invariant
            i <= list@.len(),
            forall|j: int| 0 <= j < i ==> views(list@)[j] != key@,
        ensures
            i <= list@.len(),
            forall|j: int| 0 <= j < i ==> views(list@)[j] != key@,
            i < list@.len() ==> views(list@)[i as int] == key@,
        decreases list@.len() - i,
    {
        if str_eq(list[i].as_str(), key) {
            break;
        }
        i += 1;
    }
    proof {
        lemma_first_index(views(list@), key@, i as int);
        lemma_first_index_found(views(list@), key@);
    }
    i
}

/// Where in `s` the member stands that a filter keeps as its `i`-th.
pub open spec fn origin<A>(s: Seq<A>, keep: spec_fn(A) -> bool, i: int) -> int
    decreases s.len(),
{
    if s.len() == 0 {
        0
    } else if i < s.drop_last().filter(keep).len() {
        origin(s.drop_last(), keep, i)
    } else {
        s.len() - 1
    }
}

/// What a filter keeps comes from the sequence it was applied to.
pub proof fn lemma_origin<A>(s: Seq<A>, keep: spec_fn(A) -> bool, i: int)
    requires
        0 <= i < s.filter(keep).len(),
    ensures
        0 <= origin(s, keep, i) < s.len(),
        s[origin(s, keep, i)] == s.filter(keep)[i],
        keep(s[origin(s, keep, i)]),
    decreases s.len(),
{
    reveal(Seq::filter);
    if s.len() > 0 {
        if i < s.drop_last().filter(keep).len() {
            lemma_origin(s.drop_last(), keep, i);
        }
    }
}

/// What a filter keeps stays in the order it had.
pub proof fn lemma_origin_grows<A>(s: Seq<A>, keep: spec_fn(A) -> bool, i: int, j: int)
    requires
        0 <= i < j < s.filter(keep).len(),
    ensures
        origin(s, keep, i) < origin(s, keep, j),
    decreases s.len(),
{
    reveal(Seq::filter);
    if s.len() > 0 {
        let front = s.drop_last();
        if j < front.filter(keep).len() {
            lemma_origin_grows(front, keep, i, j);
        } else {
            lemma_origin(front, keep, i);
        }
    }
}

/// A filter that every member passes keeps the sequence as it is.
pub proof fn lemma_filter_keeps_all<A>(s: Seq<A>, keep: spec_fn(A) -> bool)
    requires
        forall|i: int| 0 <= i < s.len() ==> keep(#[trigger] s[i]),
    ensures
        s.filter(keep) == s,
    decreases s.len(),
{
    reveal(Seq::filter);
    if s.len() > 0 {
        let front = s.drop_last();
        assert forall|i: int| 0 <= i < front.len() implies keep(#[trigger] front[i]) by {
            assert(front[i] == s[i]);
        }
        lemma_filter_keeps_all(front, keep);
    }
}

/// The test that a text is not `key`.
pub open spec fn differs_from(key: Seq<char>) -> spec_fn(Seq<char>) -> bool {
    |s: Seq<char>| s != key
}

/// A list that does not hold a text is the same without that text.
pub proof fn lemma_without_absent(list: Seq<Seq<char>>, key: Seq<char>)
    requires
        !list.contains(key),
    ensures
        list.filter(differs_from(key)) == list,
{
    lemma_filter_keeps_all(list, differs_from(key));
}

/// A list without the strings that equal `key`; the others keep their order.
pub fn without(list: &Vec<String>, key: &str) -> (out: Vec<String>)
    ensures
        views(out@) == views(list@).filter(differs_from(key@)),
{
    let mut out: Vec<String> = Vec::new();
    let mut i: usize = 0;
    proof {
        assert(Seq::<Seq<char>>::empty().filter(differs_from(key@)) =~= Seq::<Seq<char>>::empty())
            by {
            reveal(Seq::filter);
        }
    }
    while i < list.len()
        invariant
            i <= list@.len(),
            views(out@) == views(list@).take(i as int).filter(differs_from(key@)),
        decreases list@.len() - i,
    {
        proof {
            let done = views(list@).take(i as int);
            assert(views(list@).take(i + 1) =~= done.push(list@[i as int]@));
            done.lemma_filter_push(list@[i as int]@, differs_from(key@));
        }
        if !str_eq(list[i].as_str(), key) {
            let kept = list[i].clone();
            out.push(kept);
        }
        i += 1;
    }
    assert(views(list@).take(list@.len() as int) =~= views(list@));
    out
}

// Whitespace

/// The Unicode property `White_Space` of a character, as `char::is_whitespace`
/// reports it.
pub uninterp spec fn is_whitespace(c: char) -> bool;

/// Calls `char::is_whitespace`: the answer is the character's `White_Space`
/// property, which this crate does not spell out.
#[verifier::external_body]
fn char_is_whitespace(c: char) -> (white: bool)
    ensures
        white == is_whitespace(c),
{
    c.is_whitespace()
}

/// How many whitespace characters stand at the start of `s`.
pub open spec fn leading_whitespace(s: Seq<char>) -> nat
    decreases s.len(),
{
    if s.len() > 0 && is_whitespace(s[0]) {
        1 + leading_whitespace(s.drop_first())
    } else {
        0
    }
}

/// How many whitespace characters stand at the end of `s`.
pub open spec fn trailing_whitespace(s: Seq<char>) -> nat
    decreases s.len(),
{
    if s.len() > 0 && is_whitespace(s.last()) {
        1 + trailing_whitespace(s.drop_last())
    } else {
        0
    }
}

/// `s` without the whitespace at its end.
pub open spec fn trimmed_end(s: Seq<char>) -> Seq<char> {
    s.take(s.len() - trailing_whitespace(s))
}

/// `s` without the whitespace at its start.
pub open spec fn trimmed_start(s: Seq<char>) -> Seq<char> {
    s.skip(leading_whitespace(s) as int)
}

/// `s` without the whitespace at either end.
pub open spec fn trimmed(s: Seq<char>) -> Seq<char> {
    trimmed_start(trimmed_end(s))
}

/// A string without the whitespace at its start and its end.
pub fn trim(s: &str) -> (out: String)
    ensures
        out@ == trimmed(s@),
{
    let chars = to_chars(s);
    let n: usize = chars.len();
    let mut end: usize = n;
    assert(chars@.take(n as int) =~= chars@);
    while end > 0 && char_is_whitespace(chars[end - 1])
        invariant
            n == chars@.len(),
            end <= n,
            trailing_whitespace(chars@) == (n - end) + trailing_whitespace(chars@.take(end as int)),
        decreases end,
    {
        proof {
            let t = chars@.take(end as int);
            assert(t.drop_last() =~= chars@.take(end - 1));
        }
        end -= 1;
    }
    let ghost kept = chars@.take(end as int);
    assert(kept == trimmed_end(chars@));
    let mut start: usize = 0;
    assert(kept.skip(0) =~= kept);
    while start < end && char_is_whitespace(chars[start])
        invariant
            n == chars@.len(),
            start <= end <= n,
            kept == chars@.take(end as int),
            leading_whitespace(kept) == start + leading_whitespace(kept.skip(start as int)),
        decreases end - start,
    {
        proof {
            let t = kept.skip(start as int);
            assert(t[0] == chars@[start as int]);
            assert(t.drop_first() =~= kept.skip(start + 1));
        }
        start += 1;
    }
    assert(kept.skip(start as int) =~= s@.subrange(start as int, end as int));
    s.substring_char(start, end).to_owned()
}

// Splitting and joining

/// The pieces of `s` between the occurrences of `sep`. There is always at
/// least one piece, and a piece may be empty.
pub open spec fn split(s: Seq<char>, sep: char) -> Seq<Seq<char>>
    decreases s.len(),
{
    let i = first_index(s, sep) as int;
    if i >= s.len() {
        seq![s]
    } else {
        seq![s.take(i)] + split(s.skip(i + 1), sep)
    }
}

/// Splits a string at every occurrence of a character.
pub fn split_at_char(s: &str, sep: char) -> (pieces: Vec<String>)
    ensures
        views(pieces@) == split(s@, sep),
        pieces@.len() >= 1,
{
    let chars = to_chars(s);
    let n: usize = chars.len();
    let mut pieces: Vec<String> = Vec::new();
    let mut start: usize = 0;
    let mut i: usize = 0;
    proof {
        assert(s@.skip(0) =~= s@);
        assert(views(pieces@) + split(s@, sep) =~= split(s@, sep));
    }
    while i < n
        invariant
            chars@ == s@,
            n == chars@.len(),
            start <= i <= n,
            forall|j: int| start <= j < i ==> chars@[j] != sep,
            split(s@, sep) == views(pieces@) + split(s@.skip(start as int), sep),
        decreases n - i,
    {
        if chars[i] == sep {
            let piece = s.substring_char(start, i).to_owned();
            proof {
                let rest = s@.skip(start as int);
                lemma_first_index(rest, sep, i - start);
                assert(rest.take(i - start) =~= s@.subrange(start as int, i as int));
                assert(rest.skip(i - start + 1) =~= s@.skip(i + 1));
            }
            pieces.push(piece);
            start = i + 1;
        }
        i += 1;
    }
    let last = s.substring_char(start, n).to_owned();
    proof {
        let rest = s@.skip(start as int);
        lemma_first_index(rest, sep, n - start);
    }
    pieces.push(last);
    pieces
}

/// A line without the carriage return at its end, if it has one.
pub open spec fn without_cr(line: Seq<char>) -> Seq<char> {
    if line.len() > 0 && line.last() == '\r' {
        line.drop_last()
    } else {
        line
    }
}

/// The lines of a text, as `BufRead::lines` reads them: each ends before a
/// line feed, and loses a carriage return that stands before that line feed.
/// What follows the last line feed is a line of its own unless it is empty.
pub open spec fn text_lines(text: Seq<char>) -> Seq<Seq<char>> {
    let pieces = split(text, '\n');
    let ended = pieces.drop_last().map_values(|p: Seq<char>| without_cr(p));
    if pieces.last().len() > 0 {
        ended.push(pieces.last())
    } else {
        ended
    }
}

/// The lines of a text.
pub fn lines(text: &str) -> (out: Vec<String>)
    ensures
        views(out@) == text_lines(text@),
{
    let mut pieces = split_at_char(text, '\n');
    let ghost all = views(pieces@);
    let last = pieces.pop().unwrap();
    let mut out: Vec<String> = Vec::new();
    let mut i: usize = 0;
    while i < pieces.len()
        invariant
            i <= pieces@.len(),
            all.len() >= 1,
            views(pieces@) == all.drop_last(),
            views(out@) == all.drop_last().map_values(|p: Seq<char>| without_cr(p)).take(i as int),
        decreases pieces@.len() - i,
    {
        let piece = pieces[i].as_str();
        let n = piece.unicode_len();
        let line = if n > 0 && piece.get_char(n - 1) == '\r' {
            piece.substring_char(0, n - 1).to_owned()
        } else {
            piece.to_owned()
        };
        proof {
            let ended = all.drop_last().map_values(|p: Seq<char>| without_cr(p));
            assert(views(out@.push(line)) =~= views(out@).push(line@));
        }
        out.push(line);
        i += 1;
    }
    proof {
        let ended = all.drop_last().map_values(|p: Seq<char>| without_cr(p));
        assert(ended.take(pieces@.len() as int) =~= ended);
    }
    if last.as_str().unicode_len() > 0 {
        out.push(last);
    }
    out
}

/// The pieces of `parts` in one text, with `sep` between neighbours.
pub open spec fn join(parts: Seq<Seq<char>>, sep: Seq<char>) -> Seq<char>
    decreases parts.len(),
{
    if parts.len() == 0 {
        Seq::empty()
    } else if parts.len() == 1 {
        parts[0]
    } else {
        join(parts.drop_last(), sep) + sep + parts.last()
    }
}

/// Joins strings into one, with a separator between neighbours.
pub fn join_with(parts: &Vec<String>, sep: &str) -> (out: String)
    ensures
        out@ == join(views(parts@), sep@),
{
    let mut out = String::new();
    let mut i: usize = 0;
    while i < parts.len()
        invariant
            i <= parts@.len(),
            out@ == join(views(parts@).take(i as int), sep@),
        decreases parts@.len() - i,
    {
        proof {
            let before = views(parts@).take(i as int);
            let after = views(parts@).take(i + 1);
            assert(after.drop_last() =~= before);
        }
        if i > 0 {
            out.append(sep);
        }
        out.append(parts[i].as_str());
        i += 1;
    }
    assert(views(parts@).take(parts@.len() as int) =~= views(parts@));
    out
}

// Decimal numbers

/// Whether a character is one of the ten decimal digits.
pub open spec fn is_digit(c: char) -> bool {
    '0' <= c <= '9'
}

/// Whether a text holds decimal digits only.
pub open spec fn all_digits(s: Seq<char>) -> bool {
    forall|i: int| 0 <= i < s.len() ==> is_digit(#[trigger] s[i])
}

/// The number that a text of decimal digits writes.
pub open spec fn decimal_value(s: Seq<char>) -> int
    decreases s.len(),
{
    if s.len() == 0 {
        0
    } else {
        decimal_value(s.drop_last()) * 10 + (s.last() as int - '0' as int)
    }
}

/// What `str::parse::<i32>` makes of a text: an optional sign, then one or more
/// decimal digits, and a value that an `i32` holds.
pub open spec fn parsed_i32(s: Seq<char>) -> Option<i32> {
    let signed = s.len() > 0 && (s[0] == '-' || s[0] == '+');
    let digits = if signed { s.drop_first() } else { s };
    let value = if signed && s[0] == '-' { -decimal_value(digits) } else { decimal_value(digits) };
    if digits.len() > 0 && all_digits(digits) && i32::MIN <= value <= i32::MAX {
        Some(value as i32)
    } else {
        None
    }
}

/// A text of digits writes no less than any of its prefixes does.
pub proof fn lemma_decimal_value_grows(s: Seq<char>, k: int)
    requires
        all_digits(s),
        0 <= k <= s.len(),
    ensures
        0 <= decimal_value(s.take(k)) <= decimal_value(s),
    decreases s.len(),
{
    if s.len() > 0 && k == s.len() {
        assert(s.take(k) =~= s);
        lemma_decimal_value_grows(s.drop_last(), k - 1);
    } else if s.len() > 0 {
        assert(s.drop_last().take(k) =~= s.take(k));
        lemma_decimal_value_grows(s.drop_last(), k);
    }
}

/// Reads a decimal integer as `str::parse::<i32>` does.
pub fn parse_i32(s: &str) -> (value: Option<i32>)
    ensures
        value == parsed_i32(s@),
{
    let chars = to_chars(s);
    let n: usize = chars.len();
    if n == 0 {
        return None;
    }
    let negative = chars[0] == '-';
    let first: usize = if chars[0] == '-' || chars[0] == '+' { 1 } else { 0 };
    if first == n {
        return None;
    }
    let ghost digits = s@.skip(first as int);
    let mut acc: i64 = 0;
    let mut i: usize = first;
    while i < n
        invariant
            chars@ == s@,
            n == chars@.len(),
            first <= i <= n,
            n > 0,
            negative == (s@[0] == '-'),
            digits == if s@[0] == '-' || s@[0] == '+' { s@.drop_first() } else { s@ },
            digits.len() == n - first,
            all_digits(digits.take(i - first)),
            acc == decimal_value(digits.take(i - first)),
            0 <= acc <= 2147483648,
        decreases n - i,
    {
        let c = chars[i];
        let ghost before = digits.take(i - first);
        let ghost after = digits.take(i - first + 1);
        proof {
            assert(after.drop_last() =~= before);
        }
        if c < '0' || c > '9' {
            return None;
        }
        let d: i64 = (c as u32 - '0' as u32) as i64;
        acc = acc * 10 + d;
        assert forall|j: int| 0 <= j < after.len() implies is_digit(#[trigger] after[j]) by {
            if j < before.len() {
                assert(before[j] == after[j]);
            }
        }
        if acc > 2147483648 {
            proof {
                if all_digits(digits) {
                    lemma_decimal_value_grows(digits, i - first + 1);
                }
            }
            return None;
        }
        i += 1;
    }
    assert(digits.take(n - first) =~= digits);
    if negative {
        Some((-acc) as i32)
    } else if acc <= 2147483647 {
        Some(acc as i32)
    } else {
        None
    }
}

/// The character that writes a digit.
pub open spec fn digit_char(d: int) -> char {
    if d == 0 {
        '0'
    } else if d == 1 {
        '1'
    } else if d == 2 {
        '2'
    } else if d == 3 {
        '3'
    } else if d == 4 {
        '4'
    } else if d == 5 {
        '5'
    } else if d == 6 {
        '6'
    } else if d == 7 {
        '7'
    } else if d == 8 {
        '8'
    } else {
        '9'
    }
}

/// The decimal digits of a natural number, without leading zeros.
pub open spec fn digits_of(n: nat) -> Seq<char>
    decreases n,
{
    if n < 10 {
        seq![digit_char(n as int)]
    } else {
        digits_of(n / 10).push(digit_char((n % 10) as int))
    }
}

/// An integer in decimal, as `i32::to_string` writes it.
pub open spec fn int_text(v: int) -> Seq<char> {
    if v < 0 {
        seq!['-'] + digits_of((-v) as nat)
    } else {
        digits_of(v as nat)
    }
}

fn digit_str(d: u32) -> (out: &'static str)
    requires
        d < 10,
    ensures
        out@ == seq![digit_char(d as int)],
{
    proof {
        reveal_strlit("0");
        reveal_strlit("1");
        reveal_strlit("2");
        reveal_strlit("3");
        reveal_strlit("4");
        reveal_strlit("5");
        reveal_strlit("6");
        reveal_strlit("7");
        reveal_strlit("8");
        reveal_strlit("9");
    }
    let out = if d == 0 {
        "0"
    } else if d == 1 {
        "1"
    } else if d == 2 {
        "2"
    } else if d == 3 {
        "3"
    } else if d == 4 {
        "4"
    } else if d == 5 {
        "5"
    } else if d == 6 {
        "6"
    } else if d == 7 {
        "7"
    } else if d == 8 {
        "8"
    } else {
        "9"
    };
    out
}

fn push_digits(out: &mut String, n: u32)
    ensures
        final(out)@ == old(out)@ + digits_of(n as nat),
    decreases n,
{
    if n >= 10 {
        push_digits(out, n / 10);
    }
    out.append(digit_str(n % 10));
}

/// Writes an integer in decimal.
pub fn int_to_string(v: i32) -> (out: String)
    ensures
        out@ == int_text(v as int),
{
    let mut out = String::new();
    if v < 0 {
        out.append("-");
        proof {
            reveal_strlit("-");
        }
        push_digits(&mut out, (-(v as i64)) as u32);
    } else {
        push_digits(&mut out, v as u32);
    }
    out
}

} // verus!

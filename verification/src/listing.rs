//! The pieces that the listings of hosts, users and groups are made of.

use vstd::prelude::*;
use vstd::string::*;
use vstd::utf8::*;
use crate::text::views;

verus! {

/// A line of `=`, one for each byte that the name takes in UTF-8.
pub open spec fn underline(name: Seq<char>) -> Seq<char> {
    Seq::new(encode_utf8(name).len(), |i: int| '=')
}

/// Appends the line that underlines a name.
pub fn push_underline(out: &mut String, name: &str)
    ensures
        final(out)@ == old(out)@ + underline(name@),
{
    let n: usize = name.as_bytes().len();
    let mut i: usize = 0;
    assert(out@ =~= old(out)@ + Seq::new(0, |k: int| '='));
    while i < n
        invariant
            i <= n,
            n == encode_utf8(name@).len(),
            out@ == old(out)@ + Seq::new(i as nat, |k: int| '='),
        decreases n - i,
    {
        out.append("=");
        proof {
            reveal_strlit("=");
            assert(out@ =~= old(out)@ + Seq::new((i + 1) as nat, |k: int| '='));
        }
        i += 1;
    }
    assert(out@ =~= old(out)@ + underline(name@));
}

/// Each item on a line of its own, behind `* `.
pub open spec fn bullets(items: Seq<Seq<char>>) -> Seq<char>
    decreases items.len(),
{
    if items.len() == 0 {
        Seq::empty()
    } else {
        bullets(items.drop_last()) + "* "@ + items.last() + "\n"@
    }
}

/// Appends each item on a line of its own, behind `* `.
pub fn push_bullets(out: &mut String, items: &Vec<String>)
    ensures
        final(out)@ == old(out)@ + bullets(views(items@)),
{
    let mut i: usize = 0;
    proof {
        assert(views(items@).take(0) =~= Seq::<Seq<char>>::empty());
        assert(out@ =~= old(out)@ + bullets(views(items@).take(0)));
    }
    while i < items.len()
        invariant
            i <= items@.len(),
            out@ == old(out)@ + bullets(views(items@).take(i as int)),
        decreases items@.len() - i,
    {
        proof {
            let next = views(items@).take(i + 1);
            assert(next.drop_last() =~= views(items@).take(i as int));
            assert(next.last() == items@[i as int]@);
        }
        out.append("* ");
        out.append(items[i].as_str());
        out.append("\n");
        proof {
            assert(out@ =~= old(out)@ + (bullets(views(items@).take(i as int)) + "* "@
                + items@[i as int]@ + "\n"@));
        }
        i += 1;
    }
    assert(views(items@).take(items@.len() as int) =~= views(items@));
}

/// A text between double quotes, with the escapes that `Debug` for `str`
/// writes.
pub uninterp spec fn quoted(s: Seq<char>) -> Seq<char>;

/// Formats a string with `{:?}`, that is with `<str as Debug>::fmt`. Which
/// characters it escapes is not spelled out here: the result is only named.
#[verifier::external_body]
fn debug_quote(s: &str) -> (out: String)
    ensures
        out@ == quoted(s@),
{
    format!("{:?}", s)
}

/// Appends a string as `Debug` writes it.
pub fn push_quoted(out: &mut String, s: &str)
    ensures
        final(out)@ == old(out)@ + quoted(s@),
{
    let q = debug_quote(s);
    out.append(q.as_str());
}

/// The items as `Debug` writes them, with `, ` between neighbours.
pub open spec fn quoted_items(items: Seq<Seq<char>>) -> Seq<char>
    decreases items.len(),
{
    if items.len() == 0 {
        Seq::empty()
    } else if items.len() == 1 {
        quoted(items[0])
    } else {
        quoted_items(items.drop_last()) + ", "@ + quoted(items.last())
    }
}

/// A list of strings as `Debug` writes it.
pub open spec fn quoted_list(items: Seq<Seq<char>>) -> Seq<char> {
    "["@ + quoted_items(items) + "]"@
}

/// Appends a list of strings as `Debug` writes it.
pub fn push_quoted_list(out: &mut String, items: &Vec<String>)
    ensures
        final(out)@ == old(out)@ + quoted_list(views(items@)),
{
    out.append("[");
    let ghost start = out@;
    let mut i: usize = 0;
    proof {
        assert(views(items@).take(0) =~= Seq::<Seq<char>>::empty());
        assert(out@ =~= start + quoted_items(views(items@).take(0)));
    }
    while i < items.len()
        invariant
            i <= items@.len(),
            out@ == start + quoted_items(views(items@).take(i as int)),
        decreases items@.len() - i,
    {
        proof {
            let next = views(items@).take(i + 1);
            assert(next.drop_last() =~= views(items@).take(i as int));
            assert(next.last() == items@[i as int]@);
            if i == 0 {
                assert(next[0] == items@[0]@);
            }
        }
        if i > 0 {
            out.append(", ");
        }
        push_quoted(out, items[i].as_str());
        proof {
            let done = quoted_items(views(items@).take(i as int));
            if i > 0 {
                assert(out@ =~= start + (done + ", "@ + quoted(items@[i as int]@)));
            } else {
                assert(out@ =~= start + quoted(items@[i as int]@));
            }
        }
        i += 1;
    }
    assert(views(items@).take(items@.len() as int) =~= views(items@));
    out.append("]");
    proof {
        assert(out@ =~= old(out)@ + ("["@ + quoted_items(views(items@)) + "]"@));
    }
}

} // verus!

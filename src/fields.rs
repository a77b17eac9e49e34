//! Splitting text into the non-empty pieces between separators.
use crate::text::texts;
use vstd::prelude::*;

verus! {

/// ASCII white space, which separates process ids.
pub open spec fn is_blank(c: char) -> bool {
    c == ' ' || c == '\t' || c == '\n' || c == '\r' || c == '\x0B' || c == '\x0C'
}

pub open spec fn is_separator(c: char, lines: bool) -> bool {
    if lines {
        c == '\n'
    } else {
        is_blank(c)
    }
}

/// The pieces completed so far and the piece still open, after reading `s`.
pub open spec fn scan(s: Seq<char>, lines: bool) -> (Seq<Seq<char>>, Seq<char>)
    decreases s.len(),
{
    if s.len() == 0 {
        (Seq::empty(), Seq::empty())
    } else {
        let (done, open) = scan(s.drop_last(), lines);
        if is_separator(s.last(), lines) {
            if open.len() == 0 {
                (done, open)
            } else {
                (done.push(open), Seq::empty())
            }
        } else {
            (done, open.push(s.last()))
        }
    }
}

/// The non-empty runs of non-separators in `s`, in order.
pub open spec fn fields(s: Seq<char>, lines: bool) -> Seq<Seq<char>> {
    let (done, open) = scan(s, lines);
    if open.len() == 0 {
        done
    } else {
        done.push(open)
    }
}

fn separator(c: char, lines: bool) -> (r: bool)
    ensures
        r == is_separator(c, lines),
{
    if lines {
        c == '\n'
    } else {
        c == ' ' || c == '\t' || c == '\n' || c == '\r' || c == '\x0B' || c == '\x0C'
    }
}

fn split_fields(s: &String, lines: bool) -> (r: Vec<String>)
    ensures
        texts(r@) == fields(s@, lines),
{
    let x = s.as_str();
    let n = x.unicode_len();
    let mut out: Vec<String> = Vec::new();
    let mut start: usize = 0;
    let mut i: usize = 0;
    proof {
        assert(s@.take(0) =~= Seq::<char>::empty());
        assert(s@.subrange(0, 0) =~= Seq::<char>::empty());
        assert(texts(out@) =~= Seq::<Seq<char>>::empty());
    }
    while i < n
        invariant
            x@ == s@,
            n == s@.len(),
            start <= i <= n,
            scan(s@.take(i as int), lines) == (texts(out@), s@.subrange(start as int, i as int)),
        decreases n - i,
    {
        let c = x.get_char(i);
        proof {
            assert(s@.take(i + 1).drop_last() =~= s@.take(i as int));
            assert(s@.take(i + 1).last() == c);
        }
        if separator(c, lines) {
            if start < i {
                let piece = String::from_str(x.substring_char(start, i));
                let ghost before = texts(out@);
                out.push(piece);
                proof {
                    assert(texts(out@) =~= before.push(piece@));
                }
            }
            start = i + 1;
            proof {
                assert(s@.subrange(start as int, i + 1) =~= Seq::<char>::empty());
            }
        } else {
            proof {
                assert(s@.subrange(start as int, i + 1) =~= s@.subrange(start as int, i as int).push(
                    c,
                ));
            }
        }
        i = i + 1;
    }
    proof {
        assert(s@.take(n as int) =~= s@);
    }
    if start < n {
        let piece = String::from_str(x.substring_char(start, n));
        let ghost before = texts(out@);
        out.push(piece);
        proof {
            assert(texts(out@) =~= before.push(piece@));
        }
    }
    out
}

/// The non-empty lines of `s`.
pub fn split_lines(s: &String) -> (r: Vec<String>)
    ensures
        texts(r@) == fields(s@, true),
{
    split_fields(s, true)
}

/// The words of `s` separated by ASCII white space.
pub fn split_blank(s: &String) -> (r: Vec<String>)
    ensures
        texts(r@) == fields(s@, false),
{
    split_fields(s, false)
}

} // verus!

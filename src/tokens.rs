use vstd::prelude::*;

verus! {

/// The characters that separate tokens: ASCII space, tab, line feed, form
/// feed and carriage return.
pub open spec fn is_separator(c: char) -> bool {
    c == ' ' || c == '\t' || c == '\n' || c == '\x0C' || c == '\r'
}

/// The character contents of each string in a sequence.
pub open spec fn views(v: Seq<String>) -> Seq<Seq<char>> {
    v.map_values(|t: String| t@)
}

/// Left-to-right scan of `s`: the tokens completed so far, and the token
/// being read (empty between tokens).
pub open spec fn scan(s: Seq<char>) -> (Seq<Seq<char>>, Seq<char>)
    decreases s.len(),
{
    if s.len() == 0 {
        (Seq::empty(), Seq::empty())
    } else {
        let (done, cur) = scan(s.drop_last());
        if is_separator(s.last()) {
            if cur.len() > 0 {
                (done.push(cur), Seq::empty())
            } else {
                (done, cur)
            }
        } else {
            (done, cur.push(s.last()))
        }
    }
}

/// The maximal runs of non-separator characters of `s`, in order.
pub open spec fn split_ws(s: Seq<char>) -> Seq<Seq<char>> {
    let (done, cur) = scan(s);
    if cur.len() > 0 {
        done.push(cur)
    } else {
        done
    }
}

pub fn is_separator_char(c: char) -> (r: bool)
    ensures
        r == is_separator(c),
{
    c == ' ' || c == '\t' || c == '\n' || c == '\x0C' || c == '\r'
}

/// Splits a line into its whitespace-separated tokens; leading and trailing
/// whitespace yields no token.
pub fn split_tokens(line: &str) -> (r: Vec<String>)
    ensures
        views(r@) == split_ws(line@),
{
    let n = line.unicode_len();
    let mut out: Vec<String> = Vec::new();
    let mut start: usize = 0;
    let mut i: usize = 0;
    while i < n
        invariant
            n == line@.len(),
            start <= i <= n,
            views(out@) == scan(line@.subrange(0, i as int)).0,
            line@.subrange(start as int, i as int) == scan(line@.subrange(0, i as int)).1,
        decreases n - i,
    {
        let c = line.get_char(i);
        proof {
            let s = line@.subrange(0, i + 1);
            assert(s.drop_last() =~= line@.subrange(0, i as int));
            assert(s.last() == c);
        }
        if is_separator_char(c) {
            if start < i {
                let tok = String::from_str(line.substring_char(start, i));
                let ghost prev = out@;
                out.push(tok);
                proof {
                    assert(views(out@) =~= views(prev).push(tok@));
                }
            }
            start = i + 1;
        } else {
            proof {
                assert(line@.subrange(start as int, i + 1) =~= line@.subrange(start as int, i as int).push(c));
            }
        }
        i = i + 1;
    }
    proof {
        assert(line@.subrange(0, n as int) =~= line@);
    }
    if start < n {
        let tok = String::from_str(line.substring_char(start, n));
        let ghost prev = out@;
        out.push(tok);
        proof {
            assert(views(out@) =~= views(prev).push(tok@));
        }
    }
    out
}

} // verus!

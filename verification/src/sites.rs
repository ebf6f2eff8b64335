//! The site list: one monitored URL per line of text, read fresh each cycle.
//! The file itself is read outside the library; splitting its text into site
//! lines is verified here. An unreadable file becomes the empty text, so that
//! cycle probes nothing instead of failing.

use vstd::prelude::*;
use vstd::string::StrSliceExecFns;

verus! {

/// Position of the first newline of a text, or its length when it has none.
pub open spec fn first_newline(s: Seq<char>) -> int
    decreases s.len(),
{
    if s.len() == 0 {
        0
    } else if s[0] == '\n' {
        0
    } else {
        1 + first_newline(s.drop_first())
    }
}

/// `first_newline` names the position of the first newline exactly.
pub proof fn lemma_first_newline(s: Seq<char>)
    ensures
        0 <= first_newline(s) <= s.len(),
        first_newline(s) < s.len() ==> s[first_newline(s)] == '\n',
        forall|k: int| 0 <= k < first_newline(s) ==> s[k] != '\n',
    decreases s.len(),
{
    if s.len() > 0 && s[0] != '\n' {
        lemma_first_newline(s.drop_first());
        assert forall|k: int| 0 <= k < first_newline(s) implies s[k] != '\n' by {
            if k > 0 {
                assert(s.drop_first()[k - 1] != '\n');
            }
        }
    }
}

/// A line split at a newline loses one trailing carriage return, so that a
/// `\r\n` ending counts as one line break.
pub open spec fn strip_cr(line: Seq<char>) -> Seq<char> {
    if line.len() > 0 && line.last() == '\r' {
        line.drop_last()
    } else {
        line
    }
}

/// The lines of a text: split at `\n` or `\r\n`, with no line for a trailing
/// line break, and none at all for the empty text.
pub open spec fn split_lines(s: Seq<char>) -> Seq<Seq<char>>
    decreases s.len(),
    via split_lines_decreases
{
    if s.len() == 0 {
        Seq::empty()
    } else if first_newline(s) < s.len() {
        seq![strip_cr(s.take(first_newline(s)))] + split_lines(s.skip(first_newline(s) + 1))
    } else {
        seq![s]
    }
}

#[via_fn]
proof fn split_lines_decreases(s: Seq<char>) {
    lemma_first_newline(s);
}

/// Reads the site list out of the list file's text, one site per line.
pub fn parse_site_list(content: &str) -> (r: Vec<String>)
    ensures
        r@.map_values(|s: String| s@) == split_lines(content@),
{
    let cv_len = content.unicode_len();
    let mut out: Vec<String> = Vec::new();
    let mut start: usize = 0;
    let mut i: usize = 0;
    proof {
        assert(content@.skip(0) =~= content@);
    }
    while i < cv_len
        invariant
            cv_len == content@.len(),
            0 <= start <= i <= cv_len,
            forall|k: int| start <= k < i ==> content@[k] != '\n',
            split_lines(content@) == out@.map_values(|s: String| s@) + split_lines(
                content@.skip(start as int),
            ),
        decreases cv_len - i,
    {
        if content.get_char(i) == '\n' {
            let line: &str = if i > start && content.get_char(i - 1) == '\r' {
                content.substring_char(start, i - 1)
            } else {
                content.substring_char(start, i)
            };
            let ghost out0 = out@.map_values(|s: String| s@);
            out.push(line.to_owned());
            proof {
                let rest = content@.skip(start as int);
                lemma_first_newline(rest);
                assert(rest[i - start] == '\n');
                assert(first_newline(rest) == i - start) by {
                    let f = first_newline(rest);
                    if f < i - start {
                        assert(content@[start + f] == rest[f]);
                    }
                    if f > i - start {
                        assert(rest[i - start] != '\n');
                    }
                }
                assert(rest.take(i - start) =~= content@.subrange(start as int, i as int));
                assert(rest.skip(i - start + 1) =~= content@.skip(i + 1));
                assert(line@ == strip_cr(rest.take(i - start))) by {
                    let raw = content@.subrange(start as int, i as int);
                    if i > start && content@[i - 1] == '\r' {
                        assert(raw.len() > 0 && raw.last() == '\r');
                        assert(content@.subrange(start as int, i - 1) =~= raw.drop_last());
                    } else {
                        if raw.len() > 0 && raw.last() == '\r' {
                            assert(content@[i - 1] == raw.last());
                        }
                    }
                }
                assert(split_lines(rest) == seq![strip_cr(rest.take(i - start))] + split_lines(
                    content@.skip(i + 1),
                ));
                assert(out@.map_values(|s: String| s@) =~= out0.push(line@));
                assert(out@.map_values(|s: String| s@) + split_lines(content@.skip(i + 1)) =~= out0
                    + split_lines(rest));
            }
            start = i + 1;
        }
        i += 1;
    }
    if start < cv_len {
        let line: &str = content.substring_char(start, cv_len);
        let ghost out0 = out@.map_values(|s: String| s@);
        out.push(line.to_owned());
        proof {
            let rest = content@.skip(start as int);
            lemma_first_newline(rest);
            assert(first_newline(rest) == rest.len()) by {
                let f = first_newline(rest);
                if f < rest.len() {
                    assert(content@[start + f] == rest[f]);
                }
            }
            assert(split_lines(rest) == seq![rest]);
            assert(line@ =~= rest);
            assert(out@.map_values(|s: String| s@) =~= out0.push(line@));
            assert(out@.map_values(|s: String| s@) =~= out0 + split_lines(rest));
        }
    } else {
        proof {
            assert(content@.skip(start as int) =~= Seq::<char>::empty());
            assert(split_lines(content@.skip(start as int)) =~= Seq::<Seq<char>>::empty());
            assert(out@.map_values(|s: String| s@) + split_lines(content@.skip(start as int)) =~= out@.map_values(
                |s: String| s@,
            ));
        }
    }
    out
}

} // verus!

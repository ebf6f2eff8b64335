//! Report rendering: one human-readable line per probed site, joined by
//! newlines. The poll cycle numbers lines by position; the health view keys
//! them by site.

use vstd::prelude::*;
use vstd::string::StringExecFns;
use crate::store::{OutcomeView, ProbeOutcome};
use crate::text::{
    contains_at, dec_digits, is_digit, lemma_contains_around_char, lemma_contains_prefix,
    lemma_contains_suffix, lemma_dec_digits_are_digits, seq_contains, usize_to_string,
};

verus! {

/// The verdict label of a line.
pub open spec fn status_label(up: bool) -> Seq<char> {
    if up {
        seq!['O', 'K']
    } else {
        seq!['D', 'O', 'W', 'N']
    }
}

/// The separator between the line's key and its verdict.
pub open spec fn colon_sep() -> Seq<char> {
    seq![':', ' ']
}

/// The separator between the verdict and the timestamp.
pub open spec fn at_sep() -> Seq<char> {
    seq![' ', 'a', 't', ' ']
}

/// A line numbered by position: `<index>: <OK|DOWN> at <timestamp>`.
pub open spec fn indexed_line(i: nat, up: bool, time: Seq<char>) -> Seq<char> {
    dec_digits(i) + colon_sep() + status_label(up) + at_sep() + time
}

/// A line keyed by site: `<site>: <OK|DOWN> at <timestamp>`.
pub open spec fn site_line(site: Seq<char>, up: bool, time: Seq<char>) -> Seq<char> {
    site + colon_sep() + status_label(up) + at_sep() + time
}

/// Lines joined by a single newline, with no trailing newline.
pub open spec fn join_lines(lines: Seq<Seq<char>>) -> Seq<char>
    decreases lines.len(),
{
    if lines.len() == 0 {
        Seq::empty()
    } else if lines.len() == 1 {
        lines[0]
    } else {
        join_lines(lines.drop_last()) + seq!['\n'] + lines.last()
    }
}

/// Appending one line extends the joined text by a newline and that line.
pub proof fn lemma_join_push(lines: Seq<Seq<char>>, x: Seq<char>)
    ensures
        join_lines(lines.push(x)) == if lines.len() == 0 {
            x
        } else {
            join_lines(lines) + seq!['\n'] + x
        },
{
    let p = lines.push(x);
    assert(p.drop_last() =~= lines);
    assert(p.last() == x);
    if lines.len() == 0 {
        assert(join_lines(p) == p[0]);
        assert(p[0] == x);
    }
}

/// The numbered lines of a sequence of probe outcomes, in input order.
pub open spec fn indexed_lines(rs: Seq<OutcomeView>) -> Seq<Seq<char>> {
    Seq::new(rs.len(), |i: int| indexed_line(i as nat, rs[i].entry.up, rs[i].entry.checked_at))
}

/// The report of a poll cycle: numbered lines in input order.
pub open spec fn indexed_report(rs: Seq<OutcomeView>) -> Seq<char> {
    join_lines(indexed_lines(rs))
}

/// The site-keyed lines of a sequence of store rows.
pub open spec fn site_lines(rs: Seq<OutcomeView>) -> Seq<Seq<char>> {
    Seq::new(rs.len(), |i: int| site_line(rs[i].site, rs[i].entry.up, rs[i].entry.checked_at))
}

/// The health view of the store: site-keyed lines in store order.
pub open spec fn site_report(rs: Seq<OutcomeView>) -> Seq<char> {
    join_lines(site_lines(rs))
}

fn label_str(up: bool) -> (r: &'static str)
    ensures
        r@ == status_label(up),
{
    let r: &'static str = if up {
        "OK"
    } else {
        "DOWN"
    };
    proof {
        reveal_strlit("OK");
        reveal_strlit("DOWN");
        assert(r@ =~= status_label(up));
    }
    r
}

/// Renders one numbered report line.
pub fn render_indexed_line(i: usize, up: bool, time: &str) -> (r: String)
    ensures
        r@ == indexed_line(i as nat, up, time@),
{
    let mut r = usize_to_string(i);
    r.append(": ");
    r.append(label_str(up));
    r.append(" at ");
    r.append(time);
    proof {
        reveal_strlit(": ");
        reveal_strlit(" at ");
        assert(r@ =~= indexed_line(i as nat, up, time@));
    }
    r
}

/// Renders one site-keyed report line.
pub fn render_site_line(site: &str, up: bool, time: &str) -> (r: String)
    ensures
        r@ == site_line(site@, up, time@),
{
    let mut r = String::from_str(site);
    r.append(": ");
    r.append(label_str(up));
    r.append(" at ");
    r.append(time);
    proof {
        reveal_strlit(": ");
        reveal_strlit(" at ");
        assert(r@ =~= site_line(site@, up, time@));
    }
    r
}

/// Renders the numbered report of a poll cycle's outcomes, in input order.
pub fn render_indexed_report(rs: &Vec<ProbeOutcome>) -> (r: String)
    ensures
        r@ == indexed_report(rs@.map_values(|p: ProbeOutcome| p@)),
{
    let ghost rv = rs@.map_values(|p: ProbeOutcome| p@);
    let mut r = String::new();
    let n = rs.len();
    let mut i: usize = 0;
    while i < n
        invariant
            n == rs@.len(),
            rv == rs@.map_values(|p: ProbeOutcome| p@),
            0 <= i <= n,
            r@ == join_lines(indexed_lines(rv.take(i as int))),
        decreases n - i,
    {
        if i > 0 {
            r.append("\n");
        }
        let row = &rs[i];
        let line = render_indexed_line(i, row.entry.up, row.entry.checked_at.as_str());
        r.append(line.as_str());
        proof {
            reveal_strlit("\n");
            let prev = indexed_lines(rv.take(i as int));
            lemma_join_push(prev, line@);
            assert(indexed_lines(rv.take(i + 1)) =~= prev.push(line@));
            if i == 0 {
                assert(r@ =~= join_lines(indexed_lines(rv.take(i + 1))));
            } else {
                assert(r@ =~= join_lines(indexed_lines(rv.take(i + 1))));
            }
        }
        i += 1;
    }
    proof {
        assert(rv.take(n as int) =~= rv);
    }
    r
}

/// Renders the health view of store rows, one site-keyed line each.
pub fn render_site_report(rs: &Vec<ProbeOutcome>) -> (r: String)
    ensures
        r@ == site_report(rs@.map_values(|p: ProbeOutcome| p@)),
{
    let ghost rv = rs@.map_values(|p: ProbeOutcome| p@);
    let mut r = String::new();
    let n = rs.len();
    let mut i: usize = 0;
    while i < n
        invariant
            n == rs@.len(),
            rv == rs@.map_values(|p: ProbeOutcome| p@),
            0 <= i <= n,
            r@ == join_lines(site_lines(rv.take(i as int))),
        decreases n - i,
    {
        if i > 0 {
            r.append("\n");
        }
        let row = &rs[i];
        let line = render_site_line(row.site.as_str(), row.entry.up, row.entry.checked_at.as_str());
        r.append(line.as_str());
        proof {
            reveal_strlit("\n");
            let prev = site_lines(rv.take(i as int));
            lemma_join_push(prev, line@);
            assert(site_lines(rv.take(i + 1)) =~= prev.push(line@));
            assert(r@ =~= join_lines(site_lines(rv.take(i + 1))));
        }
        i += 1;
    }
    proof {
        assert(rv.take(n as int) =~= rv);
    }
    r
}

/// A pattern occurring in some line occurs in the joined text.
pub proof fn lemma_join_contains_line(lines: Seq<Seq<char>>, p: Seq<char>, l: int)
    requires
        0 <= l < lines.len(),
        seq_contains(lines[l], p),
    ensures
        seq_contains(join_lines(lines), p),
    decreases lines.len(),
{
    if lines.len() == 1 {
    } else {
        if l == lines.len() - 1 {
            lemma_contains_suffix(join_lines(lines.drop_last()) + seq!['\n'], lines.last(), p);
        } else {
            assert(lines.drop_last()[l] == lines[l]);
            lemma_join_contains_line(lines.drop_last(), p, l);
            lemma_contains_prefix(join_lines(lines.drop_last()), seq!['\n'], p);
            lemma_contains_prefix(join_lines(lines.drop_last()) + seq!['\n'], lines.last(), p);
        }
    }
}

/// In a join of lines, a pattern free of newlines occurs only inside a line.
pub proof fn lemma_join_contains_only_lines(lines: Seq<Seq<char>>, p: Seq<char>)
    requires
        forall|k: int| 0 <= k < p.len() ==> p[k] != '\n',
        p.len() > 0,
        seq_contains(join_lines(lines), p),
    ensures
        exists|l: int| 0 <= l < lines.len() && seq_contains(#[trigger] lines[l], p),
    decreases lines.len(),
{
    if lines.len() == 0 {
        let i = choose|i: int| contains_at(join_lines(lines), p, i);
        assert(false);
    } else if lines.len() == 1 {
        assert(seq_contains(lines[0], p));
    } else {
        lemma_contains_around_char(join_lines(lines.drop_last()), '\n', lines.last(), p);
        if seq_contains(join_lines(lines.drop_last()), p) {
            lemma_join_contains_only_lines(lines.drop_last(), p);
            let l = choose|l: int|
                0 <= l < lines.drop_last().len() && seq_contains(
                    #[trigger] lines.drop_last()[l],
                    p,
                );
            assert(lines[l] == lines.drop_last()[l]);
            assert(seq_contains(lines[l], p));
        } else {
            assert(seq_contains(lines[lines.len() - 1], p));
        }
    }
}

/// How often a character occurs in a text.
pub open spec fn count_char(s: Seq<char>, c: char) -> nat
    decreases s.len(),
{
    if s.len() == 0 {
        0
    } else {
        count_char(s.drop_last(), c) + if s.last() == c {
            1nat
        } else {
            0nat
        }
    }
}

/// The number of lines a text renders as: zero for the empty text, otherwise
/// one more than its newline count.
pub open spec fn line_count(s: Seq<char>) -> nat {
    if s.len() == 0 {
        0
    } else {
        count_char(s, '\n') + 1
    }
}

/// Character counts add up over concatenation.
pub proof fn lemma_count_char_concat(a: Seq<char>, b: Seq<char>, c: char)
    ensures
        count_char(a + b, c) == count_char(a, c) + count_char(b, c),
    decreases b.len(),
{
    if b.len() == 0 {
        assert(a + b =~= a);
    } else {
        lemma_count_char_concat(a, b.drop_last(), c);
        assert((a + b).drop_last() =~= a + b.drop_last());
        assert((a + b).last() == b.last());
    }
}

/// A text without the character has count zero.
pub proof fn lemma_count_char_zero(s: Seq<char>, c: char)
    requires
        forall|k: int| 0 <= k < s.len() ==> s[k] != c,
    ensures
        count_char(s, c) == 0,
    decreases s.len(),
{
    if s.len() > 0 {
        lemma_count_char_zero(s.drop_last(), c);
    }
}

/// Joining nonempty newline-free lines yields exactly one rendered line per
/// input line.
pub proof fn lemma_join_line_count(lines: Seq<Seq<char>>)
    requires
        forall|l: int, k: int|
            0 <= l < lines.len() && 0 <= k < lines[l].len() ==> #[trigger] lines[l][k] != '\n',
        forall|l: int| 0 <= l < lines.len() ==> #[trigger] lines[l].len() > 0,
    ensures
        line_count(join_lines(lines)) == lines.len(),
    decreases lines.len(),
{
    if lines.len() == 0 {
    } else if lines.len() == 1 {
        lemma_count_char_zero(lines[0], '\n');
    } else {
        let dl = lines.drop_last();
        assert(forall|l: int, k: int|
            0 <= l < dl.len() && 0 <= k < dl[l].len() ==> #[trigger] dl[l][k] != '\n');
        lemma_join_line_count(dl);
        lemma_count_char_concat(join_lines(dl) + seq!['\n'], lines.last(), '\n');
        lemma_count_char_concat(join_lines(dl), seq!['\n'], '\n');
        lemma_count_char_zero(lines.last(), '\n');
        assert(count_char(seq!['\n'], '\n') == 1) by {
            let s = seq!['\n'];
            assert(s.len() == 1);
            assert(s.last() == '\n');
            assert(s.drop_last() =~= Seq::<char>::empty());
            assert(count_char(s.drop_last(), '\n') == 0);
        }
        assert(join_lines(dl).len() > 0 || dl.len() == 0);
    }
}

/// No character of a numbered line is a newline, as long as its timestamp has
/// none.
pub proof fn lemma_indexed_line_no_newline(i: nat, up: bool, time: Seq<char>)
    requires
        forall|k: int| 0 <= k < time.len() ==> time[k] != '\n',
    ensures
        forall|k: int|
            0 <= k < indexed_line(i, up, time).len() ==> #[trigger] indexed_line(i, up, time)[k]
                != '\n',
{
    let line = indexed_line(i, up, time);
    lemma_dec_digits_are_digits(i);
    assert forall|k: int| 0 <= k < line.len() implies #[trigger] line[k] != '\n' by {
        let d = dec_digits(i);
        let pre = d + colon_sep() + status_label(up) + at_sep();
        if k < d.len() {
            assert(line[k] == d[k]);
            assert(is_digit(d[k]));
        } else if k < pre.len() {
        } else {
            assert(line[k] == time[k - pre.len()]);
        }
    }
}

/// No character of a site-keyed line is a newline, as long as neither site
/// nor timestamp has one.
pub proof fn lemma_site_line_no_newline(site: Seq<char>, up: bool, time: Seq<char>)
    requires
        forall|k: int| 0 <= k < site.len() ==> site[k] != '\n',
        forall|k: int| 0 <= k < time.len() ==> time[k] != '\n',
    ensures
        forall|k: int|
            0 <= k < site_line(site, up, time).len() ==> #[trigger] site_line(site, up, time)[k]
                != '\n',
{
    let line = site_line(site, up, time);
    assert forall|k: int| 0 <= k < line.len() implies #[trigger] line[k] != '\n' by {
        let pre = site + colon_sep() + status_label(up) + at_sep();
        if k < site.len() {
            assert(line[k] == site[k]);
        } else if k < pre.len() {
        } else {
            assert(line[k] == time[k - pre.len()]);
        }
    }
}

/// The health view holds one line for each distinct site ever probed: its
/// line count equals the number of store rows, whenever no site name or
/// timestamp carries a newline of its own.
pub proof fn lemma_site_report_line_count(rs: Seq<OutcomeView>)
    requires
        forall|l: int, k: int|
            0 <= l < rs.len() && 0 <= k < rs[l].site.len() ==> #[trigger] rs[l].site[k] != '\n',
        forall|l: int, k: int|
            0 <= l < rs.len() && 0 <= k < rs[l].entry.checked_at.len()
                ==> #[trigger] rs[l].entry.checked_at[k] != '\n',
    ensures
        line_count(site_report(rs)) == rs.len(),
{
    let lines = site_lines(rs);
    assert forall|l: int, k: int|
        0 <= l < lines.len() && 0 <= k < lines[l].len() implies #[trigger] lines[l][k]
        != '\n' by {
        lemma_site_line_no_newline(rs[l].site, rs[l].entry.up, rs[l].entry.checked_at);
        assert(lines[l] == site_line(rs[l].site, rs[l].entry.up, rs[l].entry.checked_at));
    }
    assert(forall|l: int| 0 <= l < lines.len() ==> #[trigger] lines[l].len() > 0);
    lemma_join_line_count(lines);
}

} // verus!

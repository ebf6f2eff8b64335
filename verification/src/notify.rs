//! The notification decision: scan a report for the down marker and, when it
//! is found, shape the single alert of that cycle.

use vstd::prelude::*;
use vstd::string::StringExecFns;
use crate::report::{
    at_sep, colon_sep, indexed_line, indexed_lines, indexed_report, lemma_join_contains_line,
    lemma_join_contains_only_lines, status_label,
};
use crate::store::OutcomeView;
use crate::text::{
    contains_at, dec_digits, digit_char, is_digit, lemma_dec_digits_are_digits, seq_contains,
    str_contains,
};

verus! {

/// The marker a down site leaves in a report line.
pub open spec fn down_marker() -> Seq<char> {
    seq!['D', 'O', 'W', 'N']
}

/// The fixed header an alert body starts with.
pub open spec fn alert_header() -> Seq<char> {
    seq!['h', 'e', 'a', 'l', 't', 'h', 'c', 'h', 'e', 'c', 'k', '\n']
}

/// The method name of the outbound alert payload.
pub open spec fn alert_method() -> Seq<char> {
    seq!['s', 'e', 'n', 'd', 'M', 'e', 's', 's', 'a', 'g', 'e']
}

/// Whether a report calls for an alert: it does exactly when the down marker
/// occurs in its text.
pub fn should_notify(report: &str) -> (r: bool)
    ensures
        r == seq_contains(report@, down_marker()),
{
    let r = str_contains(report, "DOWN");
    proof {
        reveal_strlit("DOWN");
        assert("DOWN"@ =~= down_marker());
    }
    r
}

/// The alert body: the fixed header followed by the full report.
pub fn alert_text(report: &str) -> (r: String)
    ensures
        r@ == alert_header() + report@,
{
    let mut r = String::from_str("healthcheck\n");
    r.append(report);
    proof {
        reveal_strlit("healthcheck\n");
        assert(r@ =~= alert_header() + report@);
    }
    r
}

/// A numbered line for a down site carries the down marker.
proof fn lemma_down_line_has_marker(i: nat, time: Seq<char>)
    ensures
        seq_contains(indexed_line(i, false, time), down_marker()),
{
    let line = indexed_line(i, false, time);
    let off = (dec_digits(i).len() + colon_sep().len()) as int;
    assert(line.subrange(off, off + 4) =~= down_marker()) by {
        assert forall|k: int| 0 <= k < 4 implies line.subrange(off, off + 4)[k]
            == down_marker()[k] by {
            assert(line[off + k] == status_label(false)[k]);
        }
    }
    assert(contains_at(line, down_marker(), off));
}

/// A numbered line for an up site is free of the down marker, as long as its
/// timestamp is.
proof fn lemma_up_line_clean(i: nat, time: Seq<char>)
    requires
        !seq_contains(time, down_marker()),
    ensures
        !seq_contains(indexed_line(i, true, time), down_marker()),
{
    let line = indexed_line(i, true, time);
    let pre = dec_digits(i) + colon_sep() + status_label(true) + at_sep();
    lemma_dec_digits_are_digits(i);
    if seq_contains(line, down_marker()) {
        let j = choose|j: int| contains_at(line, down_marker(), j);
        assert(line.subrange(j, j + 4)[0] == line[j]);
        assert(line[j] == 'D');
        if j < pre.len() {
            assert(line[j] == pre[j]);
            if j < dec_digits(i).len() {
                assert(is_digit(line[j]));
                let d = choose|d: int| 0 <= d < 10 && line[j] == digit_char(d);
                assert(false);
            } else {
                assert(false);
            }
        } else {
            let off = j - pre.len();
            assert(time.subrange(off, off + 4) =~= line.subrange(j, j + 4)) by {
                assert forall|k: int| 0 <= k < 4 implies #[trigger] time.subrange(off, off + 4)[k]
                    == line.subrange(j, j + 4)[k] by {
                    assert(line[j + k] == time[off + k]);
                }
            }
            assert(contains_at(time, down_marker(), off));
            assert(false);
        }
    }
}

/// One alert per cycle, exactly when a site is down: the report of a poll
/// cycle holds the down marker if and only if some probed site was down —
/// provided no timestamp carries the marker text of its own.
pub proof fn lemma_report_flags_down(rs: Seq<OutcomeView>)
    requires
        forall|l: int|
            0 <= l < rs.len() ==> !seq_contains(#[trigger] rs[l].entry.checked_at, down_marker()),
    ensures
        seq_contains(indexed_report(rs), down_marker()) <==> (exists|i: int|
            0 <= i < rs.len() && !(#[trigger] rs[i].entry.up)),
{
    let lines = indexed_lines(rs);
    if exists|i: int| 0 <= i < rs.len() && !(#[trigger] rs[i].entry.up) {
        let i = choose|i: int| 0 <= i < rs.len() && !(#[trigger] rs[i].entry.up);
        lemma_down_line_has_marker(i as nat, rs[i].entry.checked_at);
        assert(lines[i] == indexed_line(i as nat, rs[i].entry.up, rs[i].entry.checked_at));
        lemma_join_contains_line(lines, down_marker(), i);
    }
    if seq_contains(indexed_report(rs), down_marker()) {
        assert(forall|k: int| 0 <= k < down_marker().len() ==> down_marker()[k] != '\n');
        lemma_join_contains_only_lines(lines, down_marker());
        let l = choose|l: int| 0 <= l < lines.len() && seq_contains(#[trigger] lines[l], down_marker());
        assert(lines[l] == indexed_line(l as nat, rs[l].entry.up, rs[l].entry.checked_at));
        if rs[l].entry.up {
            lemma_up_line_clean(l as nat, rs[l].entry.checked_at);
            assert(false);
        }
        assert(!rs[l].entry.up);
    }
}

/// The outbound alert, ready for the external transport: a send-message
/// method name, the recipient, and the text body.
pub struct AlertMessage {
    pub method: String,
    pub chat_id: String,
    pub text: String,
}

/// Shapes the one alert of a cycle for a recipient.
pub fn build_alert(chat_id: String, report: &str) -> (r: AlertMessage)
    ensures
        r.method@ == alert_method(),
        r.chat_id == chat_id,
        r.text@ == alert_header() + report@,
{
    let method = String::from_str("sendMessage");
    proof {
        reveal_strlit("sendMessage");
        assert(method@ =~= alert_method());
    }
    AlertMessage { method, chat_id, text: alert_text(report) }
}

} // verus!

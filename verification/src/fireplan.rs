//! The submitter's pure parts: building one outbound alarm per target and
//! the durable-log line for a successful submission.  The posting itself and
//! the file append live outside the library.

use vstd::prelude::*;

use crate::text::{chars_to_string, push_all, str_chars};
use crate::types::{FireplanAlarm, FireplanAlarmV, ParsedData, ParsedDataV, Ric, RicV};

verus! {

/// The outbound alarm for one target: the record's shared fields combined
/// with the target's code and sub-channel.
pub open spec fn spec_alarm(d: ParsedDataV, t: RicV) -> FireplanAlarmV {
    FireplanAlarmV {
        ric: t.ric,
        sub_ric: t.subric,
        einsatznrlst: d.einsatznrlst,
        strasse: d.strasse,
        hausnummer: d.hausnummer,
        ort: d.ort,
        ortsteil: d.ortsteil,
        objektname: d.objektname,
        koordinaten: d.koordinaten,
        einsatzstichwort: d.einsatzstichwort,
        zusatzinfo: d.zusatzinfo,
    }
}

/// One outbound alarm: the record's shared fields plus one target's code
/// and sub-channel.
pub fn build_alarm(data: &ParsedData, target: &Ric) -> (r: FireplanAlarm)
    ensures
        r@ == spec_alarm(data@, target@),
{
    let r = FireplanAlarm {
        ric: target.ric.clone(),
        sub_ric: target.subric.clone(),
        einsatznrlst: data.einsatznrlst.clone(),
        strasse: data.strasse.clone(),
        hausnummer: data.hausnummer.clone(),
        ort: data.ort.clone(),
        ortsteil: data.ortsteil.clone(),
        objektname: data.objektname.clone(),
        koordinaten: data.koordinaten.clone(),
        einsatzstichwort: data.einsatzstichwort.clone(),
        zusatzinfo: data.zusatzinfo.clone(),
    };
    proof {
        assert(r@ =~= spec_alarm(data@, target@));
    }
    r
}

/// One outbound alarm per target of the record, in target order.
pub fn build_alarms(data: &ParsedData) -> (r: Vec<FireplanAlarm>)
    ensures
        r@.len() == data@.rics.len(),
        forall|i: int| 0 <= i < r@.len() ==> r@[i]@ == spec_alarm(data@, data@.rics[i]),
{
    let n = data.rics.len();
    let mut r: Vec<FireplanAlarm> = Vec::new();
    let mut i: usize = 0;
    while i < n
        invariant
            n == data.rics@.len(),
            i <= n,
            r@.len() == i,
            forall|k: int| 0 <= k < i ==> r@[k]@ == spec_alarm(data@, data@.rics[k]),
        decreases n - i,
    {
        r.push(build_alarm(data, &data.rics[i]));
        i += 1;
    }
    r
}

/// The durable-log line for one successful submission: timestamp, a tab,
/// then "incident id - keyword", newline-terminated.
pub open spec fn spec_log_line(ts: Seq<char>, nr: Seq<char>, keyword: Seq<char>) -> Seq<char> {
    ts + seq!['\t'] + nr + seq![' ', '-', ' '] + keyword + seq!['\n']
}

/// The durable-log line for one successful submission.
pub fn success_log_line(ts: &str, einsatznrlst: &str, einsatzstichwort: &str) -> (r: String)
    ensures
        r@ == spec_log_line(ts@, einsatznrlst@, einsatzstichwort@),
{
    let mut line: Vec<char> = Vec::new();
    let ts_c = str_chars(ts);
    push_all(&mut line, ts_c.as_slice());
    line.push('\t');
    let nr_c = str_chars(einsatznrlst);
    push_all(&mut line, nr_c.as_slice());
    line.push(' ');
    line.push('-');
    line.push(' ');
    let kw_c = str_chars(einsatzstichwort);
    push_all(&mut line, kw_c.as_slice());
    line.push('\n');
    proof {
        assert(line@ =~= spec_log_line(ts@, einsatznrlst@, einsatzstichwort@));
    }
    chars_to_string(line.as_slice())
}

} // verus!

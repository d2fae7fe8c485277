//! The extractor: turns one raw inbound payload into a normalized incident
//! record, resolving notification targets from the vehicle list.

use vstd::prelude::*;

use crate::text::{
    chars_eq, chars_to_string, contains_at, contains_sub, find_sub, has_sub, lemma_find_first,
    lemma_sub_same_len, lines_chars, spec_find, spec_lines, spec_split, spec_trim,
    spec_ws_tokens, spec_zero_pad, split_chars, str_chars, trim_chars, ws_tokens, zero_pad,
};
use crate::types::{Configuration, ExtractConfigV, ParsedData, ParsedDataV, Ric, RicV,
    SubmitPayload, SubmitPayloadV};

verus! {

/// What `regex_capture1` returns for a pattern and a line: the text of the
/// first capture group of the pattern's first match, or nothing when the
/// pattern is invalid, does not match, or the group did not participate.
pub uninterp spec fn capture_group(pattern: Seq<char>, line: Seq<char>) -> Option<Seq<char>>;

/// Relies on `regex::Regex::new` and `regex::Regex::captures`: an invalid
/// pattern or a line without a match yields nothing, a match yields the text
/// of the first capture group.
#[verifier::external_body]
fn regex_capture1(pattern: &str, line: &str) -> (r: Option<String>)
    ensures
        r.deep_view() == capture_group(pattern@, line@),
{
    match regex::Regex::new(pattern) {
        Err(_) => None,
        Ok(re) => match re.captures(line) {
            None => None,
            Some(caps) => match caps.get(1) {
                None => None,
                Some(m) => Some(m.as_str().to_string()),
            },
        },
    }
}

/// The field value after scanning every line with `pattern`: each match
/// overwrites the field, so the last matching line wins; no match leaves it
/// empty.
pub open spec fn scan_field(lines: Seq<Seq<char>>, pattern: Seq<char>) -> Seq<char>
    decreases lines.len(),
{
    if lines.len() == 0 {
        Seq::empty()
    } else {
        match capture_group(pattern, lines.last()) {
            Some(c) => c,
            None => scan_field(lines.drop_last(), pattern),
        }
    }
}

/// Scans every line with `pattern`; the last matching line's first capture
/// group wins.
fn scan_one_field(lines: &Vec<String>, pattern: &str) -> (r: String)
    ensures
        r@ == scan_field(lines@.map_values(|s: String| s@), pattern@),
{
    let ghost lv = lines@.map_values(|s: String| s@);
    let n = lines.len();
    let mut cur = String::new();
    let mut i: usize = 0;
    while i < n
        invariant
            n == lines@.len(),
            lv == lines@.map_values(|s: String| s@),
            i <= n,
            cur@ == scan_field(lv.subrange(0, i as int), pattern@),
        decreases n - i,
    {
        match regex_capture1(pattern, lines[i].as_str()) {
            Some(c) => {
                cur = c;
            },
            None => {},
        }
        proof {
            assert(lv.subrange(0, i + 1).drop_last() =~= lv.subrange(0, i as int));
            assert(lv.subrange(0, i + 1).last() == lv[i as int]);
        }
        i += 1;
    }
    proof {
        assert(lv.subrange(0, n as int) =~= lv);
    }
    cur
}

/// `s` with every carriage return removed.
pub open spec fn strip_cr(s: Seq<char>) -> Seq<char>
    decreases s.len(),
{
    if s.len() == 0 {
        Seq::empty()
    } else {
        let front = strip_cr(s.drop_last());
        if s.last() == '\r' {
            front
        } else {
            front.push(s.last())
        }
    }
}

/// A notification target in character form, used while matching.
struct RicC {
    text: Vec<char>,
    ric: Vec<char>,
    subric: Vec<char>,
}

impl View for RicC {
    type V = RicV;

    closed spec fn view(&self) -> RicV {
        RicV { text: self.text@, ric: self.ric@, subric: self.subric@ }
    }
}

/// The views of a sequence of character-form targets.
spec fn ricc_views(s: Seq<RicC>) -> Seq<RicV> {
    s.map_values(|r: RicC| r@)
}

/// A copy of `v`.
fn clone_chars(v: &Vec<char>) -> (r: Vec<char>)
    ensures
        r@ == v@,
{
    vstd::slice::slice_to_vec(v.as_slice())
}

/// A copy of `x`.
fn clone_ricc(x: &RicC) -> (r: RicC)
    ensures
        r@ == x@,
{
    let r = RicC { text: clone_chars(&x.text), ric: clone_chars(&x.ric), subric: clone_chars(
        &x.subric,
    ) };
    proof {
        assert(r@ =~= x@);
    }
    r
}

/// `a` occurs in `b` and is not `b` itself: `a` is the more general, less
/// specific display text.
pub open spec fn strict_sub_of(a: Seq<char>, b: Seq<char>) -> bool {
    has_sub(b, a) && a != b
}

/// The rule's target as appended to the result: the code zero-padded to
/// seven characters.
pub open spec fn padded_ricv(r: RicV) -> RicV {
    RicV { text: r.text, ric: spec_zero_pad(r.ric, 7), subric: r.subric }
}

/// The matches of `temp` that are not contained in the display text `t`.
pub open spec fn keep_uncontained(temp: Seq<RicV>, t: Seq<char>) -> Seq<RicV>
    decreases temp.len(),
{
    if temp.len() == 0 {
        Seq::empty()
    } else {
        let front = keep_uncontained(temp.drop_last(), t);
        if has_sub(t, temp.last().text) {
            front
        } else {
            front.push(temp.last())
        }
    }
}

/// One rule applied to the matches collected so far for one segment: a rule
/// whose display text occurs in the segment discards already-collected
/// matches contained in its text, and is itself discarded when a collected
/// match strictly contains it.
pub open spec fn seg_step(temp: Seq<RicV>, rule: RicV, seg: Seq<char>) -> Seq<RicV> {
    if !has_sub(seg, rule.text) {
        temp
    } else {
        let kept = keep_uncontained(temp, rule.text);
        if exists|j: int| 0 <= j < kept.len() && strict_sub_of(rule.text, kept[j].text) {
            kept
        } else {
            kept.push(padded_ricv(rule))
        }
    }
}

/// The surviving matches of one comma segment after every rule, in order.
pub open spec fn seg_matches(rules: Seq<RicV>, seg: Seq<char>) -> Seq<RicV>
    decreases rules.len(),
{
    if rules.len() == 0 {
        Seq::empty()
    } else {
        seg_step(seg_matches(rules.drop_last(), seg), rules.last(), seg)
    }
}

/// The surviving matches of every segment, concatenated in segment order.
pub open spec fn all_seg_matches(rules: Seq<RicV>, segs: Seq<Seq<char>>) -> Seq<RicV>
    decreases segs.len(),
{
    if segs.len() == 0 {
        Seq::empty()
    } else {
        all_seg_matches(rules, segs.drop_last()) + seg_matches(rules, segs.last())
    }
}

/// Does a collected match strictly contain the display text `t`?
fn any_strictly_contains(kept: &Vec<RicC>, t: &Vec<char>) -> (r: bool)
    ensures
        r == exists|j: int|
            0 <= j < ricc_views(kept@).len() && strict_sub_of(t@, ricc_views(kept@)[j].text),
{
    let n = kept.len();
    let mut j: usize = 0;
    while j < n
        invariant
            n == kept@.len(),
            j <= n,
            forall|m: int| 0 <= m < j ==> !strict_sub_of(t@, ricc_views(kept@)[m].text),
        decreases n - j,
    {
        let inside = contains_sub(kept[j].text.as_slice(), t.as_slice());
        if inside && kept[j].text.len() != t.len() {
            proof {
                assert(strict_sub_of(t@, ricc_views(kept@)[j as int].text));
            }
            return true;
        }
        proof {
            if inside {
                lemma_sub_same_len(kept@[j as int].text@, t@);
            }
            assert(!strict_sub_of(t@, ricc_views(kept@)[j as int].text));
        }
        j += 1;
    }
    false
}

/// Applies one matching rule to the collected matches of one segment.
fn apply_rule(temp: Vec<RicC>, rule: &RicC, seg: &[char]) -> (r: Vec<RicC>)
    ensures
        ricc_views(r@) == seg_step(ricc_views(temp@), rule@, seg@),
{
    let hit = contains_sub(seg, rule.text.as_slice());
    if !hit {
        return temp;
    }
    let n = temp.len();
    let mut kept: Vec<RicC> = Vec::new();
    let mut j: usize = 0;
    while j < n
        invariant
            n == temp@.len(),
            j <= n,
            ricc_views(kept@) == keep_uncontained(ricc_views(temp@.subrange(0, j as int)),
                rule@.text),
        decreases n - j,
    {
        let contained = contains_sub(rule.text.as_slice(), temp[j].text.as_slice());
        if !contained {
            kept.push(clone_ricc(&temp[j]));
        }
        proof {
            let tv = ricc_views(temp@.subrange(0, j + 1));
            assert(tv.drop_last() =~= ricc_views(temp@.subrange(0, j as int)));
            assert(tv.last() == temp@[j as int]@);
            if !contained {
                assert(ricc_views(kept@) =~= keep_uncontained(tv, rule@.text));
            } else {
                assert(ricc_views(kept@) =~= keep_uncontained(tv, rule@.text));
            }
        }
        j += 1;
    }
    proof {
        assert(temp@.subrange(0, n as int) =~= temp@);
    }
    if !any_strictly_contains(&kept, &rule.text) {
        let padded = RicC {
            text: clone_chars(&rule.text),
            ric: zero_pad(rule.ric.as_slice(), 7),
            subric: clone_chars(&rule.subric),
        };
        proof {
            assert(padded@ =~= padded_ricv(rule@));
        }
        kept.push(padded);
        proof {
            assert(ricc_views(kept@) =~= seg_step(ricc_views(temp@), rule@, seg@));
        }
    } else {
        proof {
            assert(ricc_views(kept@) =~= seg_step(ricc_views(temp@), rule@, seg@));
        }
    }
    kept
}

/// The surviving matches of one comma segment.
fn match_segment(rules: &Vec<RicC>, seg: &[char]) -> (r: Vec<RicC>)
    ensures
        ricc_views(r@) == seg_matches(ricc_views(rules@), seg@),
{
    let n = rules.len();
    let mut temp: Vec<RicC> = Vec::new();
    let mut j: usize = 0;
    while j < n
        invariant
            n == rules@.len(),
            j <= n,
            ricc_views(temp@) == seg_matches(ricc_views(rules@.subrange(0, j as int)), seg@),
        decreases n - j,
    {
        temp = apply_rule(temp, &rules[j], seg);
        proof {
            let rv = ricc_views(rules@.subrange(0, j + 1));
            assert(rv.drop_last() =~= ricc_views(rules@.subrange(0, j as int)));
            assert(rv.last() == rules@[j as int]@);
        }
        j += 1;
    }
    proof {
        assert(ricc_views(rules@.subrange(0, n as int)) =~= ricc_views(rules@));
    }
    temp
}

/// `s` with every carriage return removed, as a vector.
fn remove_cr(s: &[char]) -> (r: Vec<char>)
    ensures
        r@ == strip_cr(s@),
{
    let n = s.len();
    let mut r: Vec<char> = Vec::new();
    let mut i: usize = 0;
    while i < n
        invariant
            n == s@.len(),
            i <= n,
            r@ == strip_cr(s@.subrange(0, i as int)),
        decreases n - i,
    {
        let c = s[i];
        if c != '\r' {
            r.push(c);
        }
        proof {
            assert(s@.subrange(0, i + 1).drop_last() =~= s@.subrange(0, i as int));
            assert(s@.subrange(0, i + 1).last() == s@[i as int]);
        }
        i += 1;
    }
    proof {
        assert(s@.subrange(0, n as int) =~= s@);
    }
    r
}

/// The command-vehicle fallback target, appended to every record.
pub open spec fn kdow_ricv() -> RicV {
    RicV { text: "Dummy KdoW"@, ric: "0999995"@, subric: "B"@ }
}

/// The fallback target for the first vehicle group.
pub open spec fn abt1_ricv() -> RicV {
    RicV { text: "Dummy Abt 1"@, ric: "0999991"@, subric: "B"@ }
}

/// The fallback target for the second vehicle group.
pub open spec fn abt2_ricv() -> RicV {
    RicV { text: "Dummy Abt 2"@, ric: "0999992"@, subric: "B"@ }
}

/// The fallback target for the third vehicle group.
pub open spec fn abt3_ricv() -> RicV {
    RicV { text: "Dummy Abt 3"@, ric: "0999993"@, subric: "B"@ }
}

/// The fallback target for the fourth vehicle group.
pub open spec fn abt4_ricv() -> RicV {
    RicV { text: "Dummy Abt 4"@, ric: "0999994"@, subric: "B"@ }
}

/// Appends `r` to `acc` when `cond` holds and an equal target is not
/// already present.
pub open spec fn add_target_if(acc: Seq<RicV>, cond: bool, r: RicV) -> Seq<RicV> {
    if cond && !acc.contains(r) {
        acc.push(r)
    } else {
        acc
    }
}

/// One segment's contribution of group fallback targets: each of the four
/// group markers present in the segment adds its fallback target at most
/// once.
pub open spec fn uw_seg(acc: Seq<RicV>, seg: Seq<char>) -> Seq<RicV> {
    let a1 = add_target_if(acc, has_sub(seg, "UW 1/"@), abt1_ricv());
    let a2 = add_target_if(a1, has_sub(seg, "UW 2/"@), abt2_ricv());
    let a3 = add_target_if(a2, has_sub(seg, "UW 3/"@), abt3_ricv());
    add_target_if(a3, has_sub(seg, "UW 4/"@), abt4_ricv())
}

/// The group fallback targets of every segment, appended to `base` in
/// segment order.
pub open spec fn uw_fold(base: Seq<RicV>, segs: Seq<Seq<char>>) -> Seq<RicV>
    decreases segs.len(),
{
    if segs.len() == 0 {
        base
    } else {
        uw_seg(uw_fold(base, segs.drop_last()), segs.last())
    }
}

/// Is a target equal to `x` already collected?
fn contains_ricc(acc: &Vec<RicC>, x: &RicC) -> (r: bool)
    ensures
        r == ricc_views(acc@).contains(x@),
{
    let n = acc.len();
    let mut j: usize = 0;
    while j < n
        invariant
            n == acc@.len(),
            j <= n,
            forall|m: int| 0 <= m < j ==> ricc_views(acc@)[m] != x@,
        decreases n - j,
    {
        if chars_eq(acc[j].text.as_slice(), x.text.as_slice()) && chars_eq(
            acc[j].ric.as_slice(),
            x.ric.as_slice(),
        ) && chars_eq(acc[j].subric.as_slice(), x.subric.as_slice()) {
            proof {
                assert(ricc_views(acc@)[j as int] =~= x@);
            }
            return true;
        }
        proof {
            assert(ricc_views(acc@)[j as int] != x@);
        }
        j += 1;
    }
    proof {
        if ricc_views(acc@).contains(x@) {
            let k = choose|k: int| 0 <= k < n && ricc_views(acc@)[k] == x@;
            assert(ricc_views(acc@)[k] != x@);
        }
    }
    false
}

/// Adds `target` when `marker` occurs in `seg` and no equal target is
/// collected yet.
fn add_uw(acc: &mut Vec<RicC>, seg: &[char], marker: &[char], target: RicC)
    ensures
        ricc_views(final(acc)@) == add_target_if(
            ricc_views(old(acc)@),
            has_sub(seg@, marker@),
            target@,
        ),
{
    if contains_sub(seg, marker) && !contains_ricc(acc, &target) {
        acc.push(target);
        proof {
            assert(ricc_views(acc@) =~= ricc_views(old(acc)@).push(target@));
        }
    }
}

/// The record's full target list for a vehicle-list source already split
/// into comma segments: rule matches per segment, the command-vehicle
/// fallback, then the group fallbacks.
fn extract_targets(rules: &Vec<RicC>, segs: &Vec<Vec<char>>) -> (r: Vec<RicC>)
    ensures
        ricc_views(r@) == uw_fold(
            all_seg_matches(ricc_views(rules@), segs@.map_values(|v: Vec<char>| v@)).push(
                kdow_ricv(),
            ),
            segs@.map_values(|v: Vec<char>| v@),
        ),
{
    let ghost segv = segs@.map_values(|v: Vec<char>| v@);
    let n = segs.len();
    let mut acc: Vec<RicC> = Vec::new();
    let mut i: usize = 0;
    while i < n
        invariant
            n == segs@.len(),
            segv == segs@.map_values(|v: Vec<char>| v@),
            i <= n,
            ricc_views(acc@) == all_seg_matches(ricc_views(rules@), segv.subrange(0, i as int)),
        decreases n - i,
    {
        let mut found = match_segment(rules, segs[i].as_slice());
        acc.append(&mut found);
        proof {
            assert(segv.subrange(0, i + 1).drop_last() =~= segv.subrange(0, i as int));
            assert(segv.subrange(0, i + 1).last() == segv[i as int]);
            assert(ricc_views(acc@) =~= all_seg_matches(
                ricc_views(rules@),
                segv.subrange(0, i + 1),
            ));
        }
        i += 1;
    }
    proof {
        assert(segv.subrange(0, n as int) =~= segv);
    }
    let kdow = RicC { text: str_chars("Dummy KdoW"), ric: str_chars("0999995"), subric: str_chars(
        "B",
    ) };
    proof {
        assert(kdow@ =~= kdow_ricv());
    }
    acc.push(kdow);
    let ghost base = all_seg_matches(ricc_views(rules@), segv).push(kdow_ricv());
    proof {
        assert(ricc_views(acc@) =~= base);
    }
    let m1 = str_chars("UW 1/");
    let m2 = str_chars("UW 2/");
    let m3 = str_chars("UW 3/");
    let m4 = str_chars("UW 4/");
    let mut i: usize = 0;
    while i < n
        invariant
            n == segs@.len(),
            segv == segs@.map_values(|v: Vec<char>| v@),
            i <= n,
            m1@ == "UW 1/"@,
            m2@ == "UW 2/"@,
            m3@ == "UW 3/"@,
            m4@ == "UW 4/"@,
            ricc_views(acc@) == uw_fold(base, segv.subrange(0, i as int)),
        decreases n - i,
    {
        let seg = segs[i].as_slice();
        let abt1 = RicC { text: str_chars("Dummy Abt 1"), ric: str_chars("0999991"),
            subric: str_chars("B") };
        let abt2 = RicC { text: str_chars("Dummy Abt 2"), ric: str_chars("0999992"),
            subric: str_chars("B") };
        let abt3 = RicC { text: str_chars("Dummy Abt 3"), ric: str_chars("0999993"),
            subric: str_chars("B") };
        let abt4 = RicC { text: str_chars("Dummy Abt 4"), ric: str_chars("0999994"),
            subric: str_chars("B") };
        proof {
            assert(abt1@ =~= abt1_ricv());
            assert(abt2@ =~= abt2_ricv());
            assert(abt3@ =~= abt3_ricv());
            assert(abt4@ =~= abt4_ricv());
        }
        add_uw(&mut acc, seg, m1.as_slice(), abt1);
        add_uw(&mut acc, seg, m2.as_slice(), abt2);
        add_uw(&mut acc, seg, m3.as_slice(), abt3);
        add_uw(&mut acc, seg, m4.as_slice(), abt4);
        proof {
            assert(segv.subrange(0, i + 1).drop_last() =~= segv.subrange(0, i as int));
            assert(segv.subrange(0, i + 1).last() == segv[i as int]);
        }
        i += 1;
    }
    proof {
        assert(segv.subrange(0, n as int) =~= segv);
    }
    acc
}

/// The vehicle-list source: what follows the first `"Einsatzmittel:"` marker
/// in the line-break-normalized text, or nothing when the marker is absent.
pub open spec fn spec_rics_source(body: Seq<char>) -> Seq<char> {
    let m = "Einsatzmittel:"@;
    match spec_find(body, m) {
        Some(i) => if 0 <= i && i + m.len() <= body.len() {
            body.subrange(i + m.len(), body.len() as int)
        } else {
            Seq::empty()
        },
        None => Seq::empty(),
    }
}

/// The record's full target list, from the raw text and the rule table.
pub open spec fn spec_targets(rules: Seq<RicV>, text: Seq<char>) -> Seq<RicV> {
    let segs = spec_split(spec_rics_source(strip_cr(text)), ',');
    uw_fold(all_seg_matches(rules, segs).push(kdow_ricv()), segs)
}

/// The first comma chunk of the address.
pub open spec fn spec_first_chunk(address: Seq<char>) -> Seq<char> {
    spec_split(address, ',')[0]
}

/// The street: the first white-space token of the address's first comma
/// chunk, or empty.
pub open spec fn spec_strasse(address: Seq<char>) -> Seq<char> {
    let toks = spec_ws_tokens(spec_first_chunk(address));
    if toks.len() > 0 {
        toks[0]
    } else {
        Seq::empty()
    }
}

/// The house number: the second white-space token of the address's first
/// comma chunk, or empty.
pub open spec fn spec_hausnummer(address: Seq<char>) -> Seq<char> {
    let toks = spec_ws_tokens(spec_first_chunk(address));
    if toks.len() > 1 {
        toks[1]
    } else {
        Seq::empty()
    }
}

/// The free-text note: the trimmed text strictly between the first
/// `"Meldung:"` and the following `"Schlagwort"`, or empty when either
/// marker is missing.
pub open spec fn spec_zusatzinfo(text: Seq<char>) -> Seq<char> {
    let m = "Meldung:"@;
    match spec_find(text, m) {
        Some(i) => if 0 <= i && i + m.len() <= text.len() {
            let rest = text.subrange(i + m.len(), text.len() as int);
            match spec_find(rest, "Schlagwort"@) {
                Some(j) => if 0 <= j <= rest.len() {
                    spec_trim(rest.subrange(0, j))
                } else {
                    Seq::empty()
                },
                None => Seq::empty(),
            }
        } else {
            Seq::empty()
        },
        None => Seq::empty(),
    }
}

/// The normalized record extracted from one payload under one
/// configuration: a function of its inputs alone.
pub open spec fn spec_extract(d: SubmitPayloadV, c: ExtractConfigV) -> ParsedDataV {
    let body = strip_cr(d.text);
    let lines = spec_lines(body);
    ParsedDataV {
        rics: spec_targets(c.rics, d.text),
        einsatznrlst: spec_trim(d.foreign_id),
        strasse: spec_strasse(d.address),
        hausnummer: spec_hausnummer(d.address),
        ort: spec_trim(scan_field(lines, c.regex_ort)),
        ortsteil: spec_trim(scan_field(lines, c.regex_ortsteil)),
        objektname: spec_trim(scan_field(lines, c.regex_objektname)),
        koordinaten: spec_trim(d.lat) + seq![','] + spec_trim(d.lng),
        einsatzstichwort: spec_trim(d.title),
        zusatzinfo: spec_zusatzinfo(d.text),
    }
}

/// Extracts the normalized incident record from one raw payload: field
/// patterns scan every line (the last matching line wins), the vehicle list
/// after `"Einsatzmittel:"` is matched against the rule table with the
/// containment tie-break, fallback targets are appended, and street, house
/// number, coordinates and the free-text note are derived.  A pure function
/// of the payload and the configuration; it never fails.
pub fn parse(data: &SubmitPayload, configuration: &Configuration) -> (r: ParsedData)
    ensures
        r@ == spec_extract(data@, configuration.extract_view()),
{
    let text_chars = str_chars(data.text.as_str());
    let body = remove_cr(text_chars.as_slice());

    // Field patterns scan every line of the normalized text.
    let lines = lines_chars(body.as_slice());
    let mut lines_str: Vec<String> = Vec::new();
    let ln = lines.len();
    let mut i: usize = 0;
    while i < ln
        invariant
            ln == lines@.len(),
            i <= ln,
            lines_str@.len() == i,
            forall|k: int| 0 <= k < i ==> lines_str@[k]@ == lines@[k]@,
        decreases ln - i,
    {
        lines_str.push(chars_to_string(lines[i].as_slice()));
        i += 1;
    }
    proof {
        assert(lines_str@.map_values(|s: String| s@) =~= spec_lines(body@));
    }
    let ort_raw = scan_one_field(&lines_str, configuration.regex_ort.as_str());
    let ortsteil_raw = scan_one_field(&lines_str, configuration.regex_ortsteil.as_str());
    let objektname_raw = scan_one_field(&lines_str, configuration.regex_objektname.as_str());

    // The vehicle list follows the "Einsatzmittel:" marker.
    let marker = str_chars("Einsatzmittel:");
    let source: Vec<char> = match find_sub(body.as_slice(), marker.as_slice()) {
        Some(p) => {
            proof {
                lemma_find_first(body@, marker@);
                assert(contains_at(body@, marker@, p as int));
            }
            let blen = body.len();
            vstd::slice::slice_to_vec(vstd::slice::slice_subrange(
                body.as_slice(),
                p + marker.len(),
                blen,
            ))
        },
        None => Vec::new(),
    };
    proof {
        assert(source@ =~= spec_rics_source(body@));
    }
    let segs = split_chars(source.as_slice(), ',');

    // The rule table, in character form.
    let mut rules_c: Vec<RicC> = Vec::new();
    let rn = configuration.rics.len();
    let mut i: usize = 0;
    while i < rn
        invariant
            rn == configuration.rics@.len(),
            i <= rn,
            rules_c@.len() == i,
            forall|k: int| 0 <= k < i ==> rules_c@[k]@ == configuration.rics@[k]@,
        decreases rn - i,
    {
        let rr = RicC {
            text: str_chars(configuration.rics[i].text.as_str()),
            ric: str_chars(configuration.rics[i].ric.as_str()),
            subric: str_chars(configuration.rics[i].subric.as_str()),
        };
        proof {
            assert(rr@ =~= configuration.rics@[i as int]@);
        }
        rules_c.push(rr);
        i += 1;
    }
    proof {
        assert(ricc_views(rules_c@) =~= configuration.extract_view().rics);
        assert(segs@.map_values(|v: Vec<char>| v@) =~= spec_split(spec_rics_source(body@), ','));
    }
    let targets_c = extract_targets(&rules_c, &segs);
    let mut rics: Vec<Ric> = Vec::new();
    let tn = targets_c.len();
    let mut i: usize = 0;
    while i < tn
        invariant
            tn == targets_c@.len(),
            i <= tn,
            rics@.len() == i,
            forall|k: int| 0 <= k < i ==> rics@[k]@ == targets_c@[k]@,
        decreases tn - i,
    {
        let t = Ric {
            text: chars_to_string(targets_c[i].text.as_slice()),
            ric: chars_to_string(targets_c[i].ric.as_slice()),
            subric: chars_to_string(targets_c[i].subric.as_slice()),
        };
        proof {
            assert(t@ =~= targets_c@[i as int]@);
        }
        rics.push(t);
        i += 1;
    }

    // Street and house number come from the address's first comma chunk.
    let addr_chars = str_chars(data.address.as_str());
    let chunks = split_chars(addr_chars.as_slice(), ',');
    proof {
        crate::text::lemma_split_nonempty(addr_chars@, ',');
    }
    let toks = ws_tokens(chunks[0].as_slice());
    let strasse = if toks.len() > 0 {
        chars_to_string(toks[0].as_slice())
    } else {
        String::new()
    };
    let hausnummer = if toks.len() > 1 {
        chars_to_string(toks[1].as_slice())
    } else {
        String::new()
    };

    // Coordinates join the trimmed latitude and longitude.
    let lat_t = trim_chars(str_chars(data.lat.as_str()).as_slice());
    let lng_t = trim_chars(str_chars(data.lng.as_str()).as_slice());
    let mut koord_chars: Vec<char> = Vec::new();
    crate::text::push_all(&mut koord_chars, lat_t.as_slice());
    koord_chars.push(',');
    crate::text::push_all(&mut koord_chars, lng_t.as_slice());
    proof {
        assert(koord_chars@ =~= spec_trim(data.lat@) + seq![','] + spec_trim(data.lng@));
    }
    let koordinaten = chars_to_string(koord_chars.as_slice());

    // The free-text note sits between "Meldung:" and "Schlagwort" in the
    // raw text, carriage returns included.
    let m1 = str_chars("Meldung:");
    let zusatzinfo: String = match find_sub(text_chars.as_slice(), m1.as_slice()) {
        Some(p) => {
            proof {
                lemma_find_first(text_chars@, m1@);
                assert(contains_at(text_chars@, m1@, p as int));
            }
            let tlen = text_chars.len();
            let rest = vstd::slice::slice_subrange(text_chars.as_slice(), p + m1.len(), tlen);
            let m2 = str_chars("Schlagwort");
            match find_sub(rest, m2.as_slice()) {
                Some(q) => {
                    proof {
                        lemma_find_first(rest@, m2@);
                        assert(contains_at(rest@, m2@, q as int));
                    }
                    let cut = trim_chars(vstd::slice::slice_subrange(rest, 0, q));
                    chars_to_string(cut.as_slice())
                },
                None => String::new(),
            }
        },
        None => String::new(),
    };

    let r = ParsedData {
        rics,
        einsatznrlst: crate::text::trim_string(data.foreign_id.as_str()),
        strasse,
        hausnummer,
        ort: crate::text::trim_string(ort_raw.as_str()),
        ortsteil: crate::text::trim_string(ortsteil_raw.as_str()),
        objektname: crate::text::trim_string(objektname_raw.as_str()),
        koordinaten,
        einsatzstichwort: crate::text::trim_string(data.title.as_str()),
        zusatzinfo,
    };
    proof {
        assert(rics@.map_values(|x: Ric| x@) =~= ricc_views(targets_c@));
        assert(r@.rics =~= spec_extract(data@, configuration.extract_view()).rics);
        assert(r@ =~= spec_extract(data@, configuration.extract_view()));
    }
    r
}


/// The required fields of a record that ended up empty, each by the name
/// the log warning carries, in a fixed order.
pub open spec fn spec_missing_fields(d: ParsedDataV) -> Seq<Seq<char>> {
    let s = Seq::<Seq<char>>::empty();
    let s = if d.einsatzstichwort.len() == 0 {
        s.push("EINSATZSTICHWORT"@)
    } else {
        s
    };
    let s = if d.ortsteil.len() == 0 {
        s.push("ORTSTEIL"@)
    } else {
        s
    };
    let s = if d.objektname.len() == 0 {
        s.push("OBJEKTNAME"@)
    } else {
        s
    };
    let s = if d.ort.len() == 0 {
        s.push("ORT"@)
    } else {
        s
    };
    let s = if d.einsatznrlst.len() == 0 {
        s.push("EINSATZNUMMERLEITSTELLE"@)
    } else {
        s
    };
    let s = if d.strasse.len() == 0 {
        s.push("STRASSE"@)
    } else {
        s
    };
    if d.hausnummer.len() == 0 {
        s.push("HAUSNUMMER"@)
    } else {
        s
    }
}

/// The required fields of a record that ended up empty; the extraction is
/// still usable, and the caller only logs a warning per name.
pub fn empty_required_fields(record: &ParsedData) -> (r: Vec<String>)
    ensures
        r@.map_values(|x: String| x@) == spec_missing_fields(record@),
{
    let mut r: Vec<String> = Vec::new();
    if record.einsatzstichwort.as_str().is_empty() {
        r.push(String::from_str("EINSATZSTICHWORT"));
    }
    if record.ortsteil.as_str().is_empty() {
        r.push(String::from_str("ORTSTEIL"));
    }
    if record.objektname.as_str().is_empty() {
        r.push(String::from_str("OBJEKTNAME"));
    }
    if record.ort.as_str().is_empty() {
        r.push(String::from_str("ORT"));
    }
    if record.einsatznrlst.as_str().is_empty() {
        r.push(String::from_str("EINSATZNUMMERLEITSTELLE"));
    }
    if record.strasse.as_str().is_empty() {
        r.push(String::from_str("STRASSE"));
    }
    if record.hausnummer.as_str().is_empty() {
        r.push(String::from_str("HAUSNUMMER"));
    }
    proof {
        assert(r@.map_values(|x: String| x@) =~= spec_missing_fields(record@));
    }
    r
}


/// Every sequence occurs in itself.
pub proof fn lemma_has_sub_refl(a: Seq<char>)
    ensures
        has_sub(a, a),
{
    assert(a.subrange(0, a.len() as int) =~= a);
    assert(contains_at(a, a, 0));
}

/// Occurrence is transitive: what occurs in `b` occurs in anything `b`
/// occurs in.
pub proof fn lemma_has_sub_trans(a: Seq<char>, b: Seq<char>, c: Seq<char>)
    requires
        has_sub(b, a),
        has_sub(c, b),
    ensures
        has_sub(c, a),
{
    let i = choose|i: int| contains_at(b, a, i);
    let j = choose|j: int| contains_at(c, b, j);
    assert(c.subrange(j + i, j + i + a.len()) =~= a) by {
        assert forall|k: int| 0 <= k < a.len() implies c.subrange(j + i, j + i + a.len())[k]
            == a[k] by {
            assert(b.subrange(i, i + a.len())[k] == a[k]);
            assert(c.subrange(j, j + b.len())[i + k] == b[i + k]);
        }
    }
    assert(contains_at(c, a, j + i));
}

/// A strictly contained text is strictly shorter.
pub proof fn lemma_strict_sub_len(a: Seq<char>, b: Seq<char>)
    requires
        strict_sub_of(a, b),
    ensures
        a.len() < b.len(),
{
    let i = choose|i: int| contains_at(b, a, i);
    if a.len() == b.len() {
        lemma_sub_same_len(b, a);
    }
}

/// Is `t` the display text of a rule that matches the segment?
pub open spec fn matched_text(rules: Seq<RicV>, seg: Seq<char>, t: Seq<char>) -> bool {
    exists|i: int| 0 <= i < rules.len() && rules[i].text == t && has_sub(seg, t)
}

/// Is `t` a matched display text that no other matched text strictly
/// contains: the most specific match?
pub open spec fn maximal_matched(rules: Seq<RicV>, seg: Seq<char>, t: Seq<char>) -> bool {
    matched_text(rules, seg, t) && !exists|u: Seq<char>|
        matched_text(rules, seg, u) && strict_sub_of(t, u)
}

/// Does some entry of `s` carry the display text `t`?
pub open spec fn has_text(s: Seq<RicV>, t: Seq<char>) -> bool {
    exists|j: int| 0 <= j < s.len() && s[j].text == t
}

/// The longest display text among the rules.
spec fn max_text_len(rules: Seq<RicV>) -> int
    decreases rules.len(),
{
    if rules.len() == 0 {
        0
    } else {
        let front = max_text_len(rules.drop_last());
        if rules.last().text.len() > front {
            rules.last().text.len() as int
        } else {
            front
        }
    }
}

/// No rule's display text is longer than [`max_text_len`].
proof fn lemma_max_text_len(rules: Seq<RicV>, i: int)
    requires
        0 <= i < rules.len(),
    ensures
        rules[i].text.len() <= max_text_len(rules),
    decreases rules.len(),
{
    if i < rules.len() - 1 {
        lemma_max_text_len(rules.drop_last(), i);
    }
}

/// Every matched text occurs in some maximal matched text.
proof fn lemma_exists_maximal(rules: Seq<RicV>, seg: Seq<char>, t: Seq<char>)
    requires
        matched_text(rules, seg, t),
    ensures
        exists|m: Seq<char>| maximal_matched(rules, seg, m) && has_sub(m, t),
    decreases max_text_len(rules) - t.len(),
{
    let i = choose|i: int| 0 <= i < rules.len() && rules[i].text == t && has_sub(seg, t);
    lemma_max_text_len(rules, i);
    if maximal_matched(rules, seg, t) {
        lemma_has_sub_refl(t);
        assert(maximal_matched(rules, seg, t) && has_sub(t, t));
    } else {
        let u = choose|u: Seq<char>| matched_text(rules, seg, u) && strict_sub_of(t, u);
        lemma_strict_sub_len(t, u);
        let iu = choose|iu: int| 0 <= iu < rules.len() && rules[iu].text == u && has_sub(seg, u);
        lemma_max_text_len(rules, iu);
        lemma_exists_maximal(rules, seg, u);
        let m = choose|m: Seq<char>| maximal_matched(rules, seg, m) && has_sub(m, u);
        lemma_has_sub_trans(t, u, m);
        assert(maximal_matched(rules, seg, m) && has_sub(m, t));
    }
}

/// Which display texts survive [`keep_uncontained`]: those of `temp` that
/// do not occur in `v`.
proof fn lemma_keep_uncontained_texts(temp: Seq<RicV>, v: Seq<char>)
    ensures
        forall|t: Seq<char>|
            #[trigger] has_text(keep_uncontained(temp, v), t) <==> has_text(temp, t)
                && !has_sub(v, t),
    decreases temp.len(),
{
    if temp.len() > 0 {
        lemma_keep_uncontained_texts(temp.drop_last(), v);
        let front = keep_uncontained(temp.drop_last(), v);
        let kept = keep_uncontained(temp, v);
        assert forall|t: Seq<char>| #[trigger] has_text(kept, t) implies has_text(temp, t)
            && !has_sub(v, t) by {
            let j = choose|j: int| 0 <= j < kept.len() && kept[j].text == t;
            if has_sub(v, temp.last().text) || j < front.len() {
                assert(has_text(front, t));
                let w = choose|w: int| 0 <= w < front.len() && front[w].text == t;
                assert(has_text(temp.drop_last(), t));
                let w2 = choose|w2: int|
                    0 <= w2 < temp.drop_last().len() && temp.drop_last()[w2].text == t;
                assert(temp[w2].text == t);
            } else {
                assert(kept[j] == temp.last());
                assert(temp[temp.len() - 1].text == t);
            }
        }
        assert forall|t: Seq<char>| has_text(temp, t) && !has_sub(v, t) implies #[trigger]
            has_text(kept, t) by {
            let j = choose|j: int| 0 <= j < temp.len() && temp[j].text == t;
            if j < temp.len() - 1 {
                assert(temp.drop_last()[j].text == t);
                assert(has_text(temp.drop_last(), t));
                assert(has_text(front, t));
                let w = choose|w: int| 0 <= w < front.len() && front[w].text == t;
                if has_sub(v, temp.last().text) {
                    assert(kept == front);
                    assert(kept[w].text == t);
                } else {
                    assert(kept[w].text == t);
                }
            } else {
                assert(temp.last().text == t);
                assert(!has_sub(v, temp.last().text));
                assert(kept.last().text == t);
            }
        }
    }
}

/// The display texts of one segment's surviving matches are exactly the
/// maximal matched texts: for every matched rule, the most specific match
/// and nothing else.
pub proof fn lemma_seg_matches_texts(rules: Seq<RicV>, seg: Seq<char>)
    ensures
        forall|t: Seq<char>|
            #[trigger] has_text(seg_matches(rules, seg), t) <==> maximal_matched(rules, seg, t),
    decreases rules.len(),
{
    if rules.len() == 0 {
        assert forall|t: Seq<char>| !(#[trigger] has_text(seg_matches(rules, seg), t)) by {
            if has_text(seg_matches(rules, seg), t) {
                let j = choose|j: int|
                    0 <= j < seg_matches(rules, seg).len() && seg_matches(rules, seg)[j].text
                        == t;
            }
        }
        assert(forall|t: Seq<char>| !maximal_matched(rules, seg, t));
    } else {
        let prefix = rules.drop_last();
        let last = rules.last();
        let v = last.text;
        lemma_seg_matches_texts(prefix, seg);
        let temp = seg_matches(prefix, seg);
        let result = seg_matches(rules, seg);
        assert forall|t: Seq<char>| matched_text(prefix, seg, t) implies matched_text(
            rules,
            seg,
            t,
        ) by {
            let i = choose|i: int| 0 <= i < prefix.len() && prefix[i].text == t && has_sub(seg, t);
            assert(rules[i].text == t);
        }
        if !has_sub(seg, v) {
            assert(result == temp);
            assert forall|t: Seq<char>| #[trigger] matched_text(rules, seg, t) implies
                matched_text(prefix, seg, t) by {
                let i = choose|i: int|
                    0 <= i < rules.len() && rules[i].text == t && has_sub(seg, t);
                assert(i < rules.len() - 1 || rules[i].text == v);
                if i == rules.len() - 1 {
                    assert(false);
                } else {
                    assert(prefix[i].text == t);
                }
            }
            assert forall|t: Seq<char>|
                #[trigger] has_text(result, t) <==> maximal_matched(rules, seg, t) by {
                assert(has_text(temp, t) <==> maximal_matched(prefix, seg, t));
                assert(matched_text(rules, seg, t) == matched_text(prefix, seg, t));
                assert forall|u: Seq<char>| true implies (matched_text(rules, seg, u)
                    == matched_text(prefix, seg, u)) by {}
            }
        } else {
            let kept = keep_uncontained(temp, v);
            lemma_keep_uncontained_texts(temp, v);
            let pushed = !exists|j: int|
                0 <= j < kept.len() && strict_sub_of(v, kept[j].text);
            assert(rules[rules.len() - 1].text == v);
            assert(matched_text(rules, seg, v));

            // A collected match strictly containing the new rule's text
            // exists exactly when some matched prefix text strictly
            // contains it.
            assert(pushed <==> !exists|u: Seq<char>|
                matched_text(rules, seg, u) && strict_sub_of(v, u)) by {
                if exists|j: int| 0 <= j < kept.len() && strict_sub_of(v, kept[j].text) {
                    let j = choose|j: int|
                        0 <= j < kept.len() && strict_sub_of(v, kept[j].text);
                    let u = kept[j].text;
                    assert(has_text(kept, u));
                    assert(has_text(temp, u));
                    assert(maximal_matched(prefix, seg, u));
                    assert(matched_text(rules, seg, u) && strict_sub_of(v, u));
                }
                if exists|u: Seq<char>| matched_text(rules, seg, u) && strict_sub_of(v, u) {
                    let u0 = choose|u: Seq<char>|
                        matched_text(rules, seg, u) && strict_sub_of(v, u);
                    lemma_exists_maximal(rules, seg, u0);
                    let m = choose|m: Seq<char>|
                        maximal_matched(rules, seg, m) && has_sub(m, u0);
                    lemma_strict_sub_len(v, u0);
                    lemma_has_sub_trans(v, u0, m);
                    assert(u0.len() <= m.len()) by {
                        let i = choose|i: int| contains_at(m, u0, i);
                    }
                    assert(strict_sub_of(v, m));
                    // m is maximal in the prefix too: it cannot be v, and
                    // any prefix container would contradict maximality.
                    assert(m != v);
                    let im = choose|im: int|
                        0 <= im < rules.len() && rules[im].text == m && has_sub(seg, m);
                    assert(im < rules.len() - 1);
                    assert(prefix[im].text == m);
                    assert(matched_text(prefix, seg, m));
                    assert(maximal_matched(prefix, seg, m));
                    assert(has_text(temp, m));
                    assert(!has_sub(v, m)) by {
                        if has_sub(v, m) {
                            lemma_strict_sub_len(v, m);
                            let i = choose|i: int| contains_at(v, m, i);
                        }
                    }
                    assert(has_text(kept, m));
                    let w = choose|w: int| 0 <= w < kept.len() && kept[w].text == m;
                    assert(strict_sub_of(v, kept[w].text));
                }
            }

            assert forall|t: Seq<char>|
                #[trigger] has_text(result, t) <==> maximal_matched(rules, seg, t) by {
                // Forward: a surviving text is maximal.
                if has_text(result, t) {
                    if has_text(kept, t) {
                        assert(has_text(temp, t) && !has_sub(v, t));
                        assert(maximal_matched(prefix, seg, t));
                        assert(!exists|u: Seq<char>|
                            matched_text(rules, seg, u) && strict_sub_of(t, u)) by {
                            if exists|u: Seq<char>|
                                matched_text(rules, seg, u) && strict_sub_of(t, u) {
                                let u = choose|u: Seq<char>|
                                    matched_text(rules, seg, u) && strict_sub_of(t, u);
                                let iu = choose|iu: int|
                                    0 <= iu < rules.len() && rules[iu].text == u && has_sub(
                                        seg,
                                        u,
                                    );
                                if iu == rules.len() - 1 {
                                    assert(u == v);
                                    assert(has_sub(v, t));
                                } else {
                                    assert(prefix[iu].text == u);
                                    assert(matched_text(prefix, seg, u));
                                }
                            }
                        }
                        assert(maximal_matched(rules, seg, t));
                    } else {
                        // The only other entry is the pushed rule itself.
                        let j = choose|j: int| 0 <= j < result.len() && result[j].text == t;
                        assert(pushed && j == kept.len() && t == v);
                        assert(maximal_matched(rules, seg, v));
                    }
                }
                // Backward: a maximal text survives.
                if maximal_matched(rules, seg, t) {
                    if t == v {
                        assert(pushed);
                        assert(result[result.len() - 1].text == v);
                        assert(has_text(result, t));
                    } else {
                        let i = choose|i: int|
                            0 <= i < rules.len() && rules[i].text == t && has_sub(seg, t);
                        assert(i < rules.len() - 1);
                        assert(prefix[i].text == t);
                        assert(matched_text(prefix, seg, t));
                        assert(maximal_matched(prefix, seg, t));
                        assert(has_text(temp, t));
                        assert(!has_sub(v, t)) by {
                            if has_sub(v, t) {
                                assert(strict_sub_of(t, v));
                                assert(matched_text(rules, seg, v));
                            }
                        }
                        assert(has_text(kept, t));
                        let w = choose|w: int| 0 <= w < kept.len() && kept[w].text == t;
                        assert(result[w].text == t);
                        assert(has_text(result, t));
                    }
                }
            }
        }
    }
}

/// The containment tie-break: a configured rule whose display text occurs
/// strictly inside another rule's display text matched by the same comma
/// segment contributes no target of its own for that segment.
pub proof fn lemma_containment_tie_break(
    rules: Seq<RicV>,
    seg: Seq<char>,
    a: Seq<char>,
    b: Seq<char>,
)
    requires
        exists|i: int| 0 <= i < rules.len() && rules[i].text == b,
        has_sub(seg, b),
        strict_sub_of(a, b),
    ensures
        forall|j: int|
            0 <= j < seg_matches(rules, seg).len() ==> seg_matches(rules, seg)[j].text != a,
{
    lemma_seg_matches_texts(rules, seg);
    assert forall|j: int| 0 <= j < seg_matches(rules, seg).len() implies seg_matches(
        rules,
        seg,
    )[j].text != a by {
        if seg_matches(rules, seg)[j].text == a {
            assert(has_text(seg_matches(rules, seg), a));
            assert(maximal_matched(rules, seg, a));
            assert(matched_text(rules, seg, b));
        }
    }
}

/// The extractor is pure: equal payloads and configurations always give
/// equal incident records.
pub proof fn lemma_extract_pure(
    d1: SubmitPayloadV,
    c1: ExtractConfigV,
    d2: SubmitPayloadV,
    c2: ExtractConfigV,
)
    requires
        d1 == d2,
        c1 == c2,
    ensures
        spec_extract(d1, c1) == spec_extract(d2, c2),
{
}


} // verus!

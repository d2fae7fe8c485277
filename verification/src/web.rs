//! The inbound listener's decision core: authorization and response
//! selection for the submit endpoint, the sample payload the error response
//! carries, and the byte formatter of the metrics page.

use vstd::prelude::*;

use crate::text::{chars_to_string, dec_chars, push_all, spec_dec, spec_zero_pad, str_chars,
    zero_pad};
use crate::types::SubmitPayload;

verus! {

/// The response of the submit endpoint.
pub enum InboundResponse {
    /// The caller's token does not match the configured secret.
    Unauthorized,
    /// The token matches but the body is not a well-formed payload; the
    /// response carries a sample payload.
    BadRequest,
    /// The payload was accepted and enqueued; downstream outcomes stay
    /// invisible to the caller.
    Submitted,
}

impl InboundResponse {
    /// The HTTP status code of this response.
    pub fn status_code(&self) -> (r: u16)
        ensures
            r == match self {
                InboundResponse::Unauthorized => 401u16,
                InboundResponse::BadRequest => 400u16,
                InboundResponse::Submitted => 200u16,
            },
    {
        match self {
            InboundResponse::Unauthorized => 401,
            InboundResponse::BadRequest => 400,
            InboundResponse::Submitted => 200,
        }
    }
}

/// The submit endpoint's decision: a token mismatch is rejected whatever
/// the body holds; with a matching token, a body that deserialized is
/// accepted and anything else earns the sample-carrying error.
pub fn classify_inbound(provided: &String, expected: &String, parsed: bool) -> (r:
    InboundResponse)
    ensures
        provided@ != expected@ ==> r is Unauthorized,
        provided@ == expected@ && !parsed ==> r is BadRequest,
        provided@ == expected@ && parsed ==> r is Submitted,
{
    let same = *provided == *expected;
    if !same {
        InboundResponse::Unauthorized
    } else if parsed {
        InboundResponse::Submitted
    } else {
        InboundResponse::BadRequest
    }
}

/// The sample payload the bad-request response carries.
pub fn example_payload() -> (r: SubmitPayload)
    ensures
        r.id == 247,
        r.foreign_id@ == "E-123"@,
        r.title@ == "FEUER3"@,
        r.text@ == "Unklare Rauchentwicklung im Hafen"@,
        r.address@ == "Hauptstraße 247, 12345 Musterstadt"@,
        r.lat@ == "1.23456"@,
        r.lng@ == "12.34567"@,
        r.priority == 1,
        r.cluster@.len() == 1 && r.cluster@[0]@ == "Untereinheit 1"@,
        r.group@.len() == 2 && r.group@[0]@ == "Gruppe 1"@ && r.group@[1]@ == "Gruppe 2"@,
        r.vehicle@.len() == 2 && r.vehicle@[0]@ == "HLF-1"@ && r.vehicle@[1]@ == "LF-10"@,
        r.ts_create == 1769601252,
        r.ts_update == 1769601252,
{
    let mut cluster: Vec<String> = Vec::new();
    cluster.push(String::from_str("Untereinheit 1"));
    let mut group: Vec<String> = Vec::new();
    group.push(String::from_str("Gruppe 1"));
    group.push(String::from_str("Gruppe 2"));
    let mut vehicle: Vec<String> = Vec::new();
    vehicle.push(String::from_str("HLF-1"));
    vehicle.push(String::from_str("LF-10"));
    SubmitPayload {
        id: 247,
        foreign_id: String::from_str("E-123"),
        title: String::from_str("FEUER3"),
        text: String::from_str("Unklare Rauchentwicklung im Hafen"),
        address: String::from_str("Hauptstraße 247, 12345 Musterstadt"),
        lat: String::from_str("1.23456"),
        lng: String::from_str("12.34567"),
        priority: 1,
        cluster,
        group,
        vehicle,
        ts_create: 1769601252,
        ts_update: 1769601252,
    }
}

/// One gibibyte.
pub const GIB: u64 = 1024 * 1024 * 1024;

/// One mebibyte.
pub const MIB: u64 = 1024 * 1024;

/// `bytes / unit` in rounded hundredths: the nearest multiple of one
/// hundredth, halves rounding up.
pub open spec fn spec_hundredths(bytes: int, unit: int) -> int {
    (200 * bytes + unit) / (2 * unit)
}

/// The decimal rendering of `bytes / unit` with two digits after the point.
pub open spec fn spec_scaled(bytes: int, unit: int) -> Seq<char> {
    let h = spec_hundredths(bytes, unit);
    spec_dec(h / 100) + seq!['.'] + spec_zero_pad(spec_dec(h % 100), 2)
}

/// A byte count rendered for the metrics page: gibibytes for a gibibyte or
/// more, mebibytes below, two digits after the point, halves rounding up.
pub open spec fn spec_fmt_bytes(bytes: u64) -> Seq<char> {
    if bytes >= GIB {
        spec_scaled(bytes as int, GIB as int) + " GiB"@
    } else {
        spec_scaled(bytes as int, MIB as int) + " MiB"@
    }
}

/// Whole part and fractional hundredths of `bytes / unit`, rounded.
fn scaled_parts(bytes: u64, unit: u64) -> (r: (u64, u64))
    requires
        MIB <= unit <= GIB,
    ensures
        r.0 == spec_hundredths(bytes as int, unit as int) / 100,
        r.1 == spec_hundredths(bytes as int, unit as int) % 100,
{
    let q = bytes / unit;
    let rem = bytes % unit;
    let f = (200 * rem + unit) / (2 * unit);
    proof {
        let b = bytes as int;
        let u = unit as int;
        let qi = q as int;
        let ri = rem as int;
        let h = spec_hundredths(b, u);
        vstd::arithmetic::div_mod::lemma_fundamental_div_mod(b, u);
        assert(200 * b + u == (200 * ri + u) + (100 * qi) * (2 * u)) by (nonlinear_arith)
            requires
                b == u * qi + ri,
        ;
        vstd::arithmetic::div_mod::lemma_hoist_over_denominator(
            200 * ri + u,
            100 * qi,
            (2 * u) as nat,
        );
        assert(h == 100 * qi + f);
        assert(200 * ri + u <= (2 * u) * 100 + (2 * u - 1));
        vstd::arithmetic::div_mod::lemma_div_is_ordered(
            200 * ri + u,
            (2 * u) * 100 + (2 * u - 1),
            2 * u,
        );
        vstd::arithmetic::div_mod::lemma_div_multiples_vanish_fancy(100, 2 * u - 1, 2 * u);
        assert(f <= 100);
    }
    if f == 100 {
        proof {
            vstd::arithmetic::div_mod::lemma_div_is_ordered_by_denominator(
                bytes as int,
                2,
                unit as int,
            );
            assert(q < u64::MAX);
            let h = spec_hundredths(bytes as int, unit as int);
            assert(h == 100 * ((q + 1) as int));
            vstd::arithmetic::div_mod::lemma_div_multiples_vanish((q + 1) as int, 100);
            assert(h / 100 == q + 1) by {
                assert(100 * ((q + 1) as int) == ((q + 1) as int) * 100) by (nonlinear_arith);
                vstd::arithmetic::div_mod::lemma_div_multiples_vanish((q + 1) as int, 100);
            }
            assert(h % 100 == 0) by (nonlinear_arith)
                requires
                    h == 100 * ((q + 1) as int),
            ;
        }
        (q + 1, 0)
    } else {
        proof {
            let h = spec_hundredths(bytes as int, unit as int);
            assert(h == (q as int) * 100 + f) by (nonlinear_arith)
                requires
                    h == 100 * (q as int) + f,
            ;
            vstd::arithmetic::div_mod::lemma_hoist_over_denominator(f as int, q as int, 100);
            vstd::arithmetic::div_mod::lemma_small_div_converse(f as int, 100);
            assert(h / 100 == q as int);
            vstd::arithmetic::div_mod::lemma_fundamental_div_mod_converse(
                h,
                100,
                q as int,
                f as int,
            );
        }
        (q, f)
    }
}

/// The decimal rendering of `bytes / unit` with two digits after the point.
fn scaled_chars(bytes: u64, unit: u64) -> (r: Vec<char>)
    requires
        MIB <= unit <= GIB,
    ensures
        r@ == spec_scaled(bytes as int, unit as int),
{
    let (whole, frac) = scaled_parts(bytes, unit);
    let mut r = dec_chars(whole);
    r.push('.');
    let frac_digits = dec_chars(frac);
    let padded = zero_pad(frac_digits.as_slice(), 2);
    push_all(&mut r, padded.as_slice());
    proof {
        assert(r@ =~= spec_scaled(bytes as int, unit as int));
    }
    r
}

/// A byte count rendered for the metrics page, in GiB or MiB.
pub fn fmt_bytes_gib_mib(bytes: u64) -> (r: String)
    ensures
        r@ == spec_fmt_bytes(bytes),
{
    let mut out: Vec<char>;
    if bytes >= GIB {
        out = scaled_chars(bytes, GIB);
        let suffix = str_chars(" GiB");
        push_all(&mut out, suffix.as_slice());
    } else {
        out = scaled_chars(bytes, MIB);
        let suffix = str_chars(" MiB");
        push_all(&mut out, suffix.as_slice());
    }
    chars_to_string(out.as_slice())
}

} // verus!

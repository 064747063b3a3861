//! The value bridge: a pure, total, bidirectional mapping between boundary
//! values and the engine's native column values.
//!
//! Inbound, booleans collapse to integers and composites to their canonical
//! text; outbound, text is opportunistically recovered into the structured
//! value it canonically serializes, and blobs become base-64 strings.  Both
//! directions are total and never fail.

use crate::codec::{parse_text, ser, serialize_value};
use crate::unique::lemma_ser_injective;
use crate::value::{same_value, wf_external, ExternalValue, NativeValue};
use vstd::prelude::*;

verus! {

/// What the inbound direction produces: the exact native value for each
/// boundary value, stated up to string contents.
pub open spec fn native_ok(v: ExternalValue, n: NativeValue) -> bool {
    match v {
        ExternalValue::Null => n is Null,
        ExternalValue::Boolean(b) => n == NativeValue::Integer(
            if b {
                1i64
            } else {
                0i64
            },
        ),
        ExternalValue::Int(i) => n == NativeValue::Integer(i),
        ExternalValue::Real(t) => n matches NativeValue::Real(u) && u@ == t@,
        ExternalValue::Str(s) => n matches NativeValue::Text(u) && u@ == s@,
        ExternalValue::Array(_) => n matches NativeValue::Text(u) && u@ == ser(v),
        ExternalValue::Object(_) => n matches NativeValue::Text(u) && u@ == ser(v),
    }
}

/// What the outbound direction produces.  For text, exactly one of two
/// things: when some well-formed value has this canonical text, that value
/// is recovered; otherwise the text survives unchanged as a string.  Every
/// other case is exact.
pub open spec fn external_ok(n: NativeValue, e: ExternalValue) -> bool {
    match n {
        NativeValue::Null => e is Null,
        NativeValue::Integer(i) => e == ExternalValue::Int(i),
        NativeValue::Real(t) => e matches ExternalValue::Real(u) && u@ == t@,
        NativeValue::Text(s) => if exists|w: ExternalValue| wf_external(w) && ser(w) == s@ {
            wf_external(e) && ser(e) == s@
        } else {
            e matches ExternalValue::Str(u) && u@ == s@
        },
        NativeValue::Blob(b) => e matches ExternalValue::Str(u) && u@ == base64_of(b@),
    }
}

/// The base-64 text of a byte sequence, as the standard alphabet with
/// padding produces it.
pub uninterp spec fn base64_of(b: Seq<u8>) -> Seq<char>;

/// Relies on base64's `Engine::encode` with the `general_purpose::STANDARD`
/// engine: the result depends on the bytes alone, and holds four output
/// characters for every three input bytes, rounded up by padding.
#[verifier::external_body]
fn b64_encode(b: &Vec<u8>) -> (r: String)
    ensures
        r@ == base64_of(b@),
        r@.len() == 4 * ((b@.len() + 2) / 3),
{
    base64::Engine::encode(&base64::engine::general_purpose::STANDARD, b)
}

/// Inbound direction of the bridge: boundary value to native value.  Total;
/// booleans become the integers one and zero, composites their canonical
/// text.  A number that is representable neither as a 64-bit integer nor as
/// a float cannot be constructed in this value model, so the fail-safe null
/// for such input is vacuous here.
pub fn to_native(v: &ExternalValue) -> (r: NativeValue)
    ensures
        native_ok(*v, r),
{
    match v {
        ExternalValue::Null => NativeValue::Null,
        ExternalValue::Boolean(b) => NativeValue::Integer(
            if *b {
                1
            } else {
                0
            },
        ),
        ExternalValue::Int(i) => NativeValue::Integer(*i),
        ExternalValue::Real(t) => NativeValue::Real(t.clone()),
        ExternalValue::Str(s) => NativeValue::Text(s.clone()),
        ExternalValue::Array(_) => NativeValue::Text(serialize_value(v)),
        ExternalValue::Object(_) => NativeValue::Text(serialize_value(v)),
    }
}

/// Outbound direction of the bridge: native value to boundary value.  Total;
/// text is recovered into the value it canonically serializes when there is
/// one, and blobs become base-64 strings.
pub fn to_external(n: NativeValue) -> (r: ExternalValue)
    ensures
        external_ok(n, r),
{
    match n {
        NativeValue::Null => ExternalValue::Null,
        NativeValue::Integer(i) => ExternalValue::Int(i),
        NativeValue::Real(t) => ExternalValue::Real(t),
        NativeValue::Text(s) => match parse_text(s.as_str()) {
            Some(v) => {
                proof {
                    assert(wf_external(v) && ser(v) == s@);
                }
                v
            },
            None => ExternalValue::Str(s),
        },
        NativeValue::Blob(b) => {
            let t = b64_encode(&b);
            ExternalValue::Str(t)
        },
    }
}

/// Null, integer and plain-string inputs survive the round trip through the
/// bridge unchanged, provided the string is not the canonical text of any
/// well-formed value (such a string is recovered as that value instead; see
/// `external_ok`).
pub proof fn lemma_scalar_round_trip(v: ExternalValue, n: NativeValue, e: ExternalValue)
    requires
        match v {
            ExternalValue::Null => true,
            ExternalValue::Int(_) => true,
            ExternalValue::Str(s) => forall|w: ExternalValue|
                !(wf_external(w) && ser(w) == s@),
            _ => false,
        },
        native_ok(v, n),
        external_ok(n, e),
    ensures
        same_value(v, e),
{
    match v {
        ExternalValue::Str(s) => {
            let u = n->Text_0;
            assert(u@ == s@);
            assert(!(exists|w: ExternalValue| wf_external(w) && ser(w) == u@));
        },
        _ => {},
    }
}

/// A boolean input round-trips to the number one or zero, never back to a
/// boolean: the collapse is by design and the outbound direction cannot
/// undo it.
pub proof fn lemma_boolean_round_trip(b: bool, n: NativeValue, e: ExternalValue)
    requires
        native_ok(ExternalValue::Boolean(b), n),
        external_ok(n, e),
    ensures
        e == ExternalValue::Int(
            if b {
                1i64
            } else {
                0i64
            },
        ),
        !(e is Boolean),
{
}

/// The inbound direction never produces a blob: the boundary value model
/// has no binary case, so binary columns are unreachable from input.
pub proof fn lemma_inbound_never_blob(v: ExternalValue, n: NativeValue)
    requires
        native_ok(v, n),
    ensures
        !(n is Blob),
{
}

/// A composite input survives the round trip: the outbound direction
/// always recovers a structured value from the stored canonical text, and
/// that value is structurally equal to the original, since no other
/// well-formed value shares its canonical text (`lemma_ser_injective`).
pub proof fn lemma_composite_round_trip(v: ExternalValue, n: NativeValue, e: ExternalValue)
    requires
        v is Array || v is Object,
        wf_external(v),
        native_ok(v, n),
        external_ok(n, e),
    ensures
        same_value(e, v),
{
    let u0 = n->Text_0;
    assert(u0@ == ser(v));
    assert(wf_external(v) && ser(v) == u0@);
    assert(exists|w: ExternalValue| wf_external(w) && ser(w) == u0@);
    lemma_ser_injective(e, v);
}

} // verus!

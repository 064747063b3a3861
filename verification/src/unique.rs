//! Uniqueness of the canonical text: no two well-formed values share a
//! serialization, even inside composite text where a value's text is
//! followed by a separator or closer.  This is what lets the outbound
//! bridge recover a stored composite exactly.

use crate::codec::{elems_text, esc_char, pair_text, pairs_text, ser, str_body};
use crate::text::{dec_text, digit_char, int_text, is_digit, is_num_char};
use crate::value::{same_value, wf_external, ExternalValue};
use vstd::prelude::*;

verus! {

broadcast use {vstd::seq::group_seq_axioms, vstd::std_specs::vec::group_vec_axioms};

/// A tail on which a numeric token has certainly ended: empty, or led by a
/// character that cannot continue the token.  Separators and closers all
/// qualify.
pub open spec fn delim_led(u: Seq<char>) -> bool {
    u.len() == 0 || !is_num_char(u[0])
}

/// Equal sequences with the same prefix have the same remainder.
proof fn lemma_cancel(p: Seq<char>, u: Seq<char>, q: Seq<char>, w: Seq<char>)
    requires
        p + u == q + w,
        p == q,
    ensures
        u == w,
{
    assert((p + u).len() == p.len() + u.len());
    assert((q + w).len() == q.len() + w.len());
    assert(u.len() == w.len());
    assert forall|k: int| 0 <= k < u.len() implies u[k] == w[k] by {
        assert((p + u)[p.len() + k] == u[k]);
        assert((q + w)[q.len() + k] == w[k]);
    }
    assert(u =~= w);
}

/// A natural's numeral is nonempty and all digits.
proof fn lemma_dec_text_shape(n: nat)
    ensures
        dec_text(n).len() >= 1,
        forall|k: int| 0 <= k < dec_text(n).len() ==> is_digit(#[trigger] dec_text(n)[k]),
    decreases n,
{
    if n >= 10 {
        lemma_dec_text_shape(n / 10);
    }
}

/// Distinct naturals have distinct numerals.
proof fn lemma_dec_text_inj(a: nat, b: nat)
    requires
        dec_text(a) == dec_text(b),
    ensures
        a == b,
    decreases a,
{
    lemma_dec_text_shape(a);
    lemma_dec_text_shape(b);
    if a < 10 && b < 10 {
        assert(dec_text(a) =~= seq![digit_char(a)]);
        assert(dec_text(b) =~= seq![digit_char(b)]);
        assert(dec_text(a)[0] == digit_char(a));
        assert(dec_text(b)[0] == digit_char(b));
        assert(digit_char(a) == digit_char(b));
        if a != b {
            assert(false);
        }
    } else if a < 10 {
        lemma_dec_text_shape(b / 10);
        assert(dec_text(b).len() >= 2);
    } else if b < 10 {
        lemma_dec_text_shape(a / 10);
        assert(dec_text(a).len() >= 2);
    } else {
        let pa = dec_text(a / 10);
        let pb = dec_text(b / 10);
        assert(pa.push(digit_char(a % 10)) == pb.push(digit_char(b % 10)));
        assert(pa.len() == pb.len());
        assert forall|k: int| 0 <= k < pa.len() implies pa[k] == pb[k] by {
            assert(pa.push(digit_char(a % 10))[k] == pa[k]);
            assert(pb.push(digit_char(b % 10))[k] == pb[k]);
        }
        assert(pa =~= pb);
        assert(pa.push(digit_char(a % 10))[pa.len() as int] == digit_char(a % 10));
        assert(pb.push(digit_char(b % 10))[pa.len() as int] == digit_char(b % 10));
        assert(digit_char(a % 10) == digit_char(b % 10));
        lemma_dec_text_inj(a / 10, b / 10);
    }
}

/// An integer's numeral is nonempty, starts with a digit or the minus sign,
/// and holds only digits and the minus sign.
proof fn lemma_int_text_shape(i: int)
    ensures
        int_text(i).len() >= 1,
        is_digit(int_text(i)[0]) || int_text(i)[0] == '-',
        forall|k: int|
            0 <= k < int_text(i).len() ==> is_digit(#[trigger] int_text(i)[k]) || int_text(i)[k]
                == '-',
{
    if i < 0 {
        lemma_dec_text_shape((-i) as nat);
    } else {
        lemma_dec_text_shape(i as nat);
    }
}

/// Distinct integers have distinct numerals.
proof fn lemma_int_text_inj(i: int, j: int)
    requires
        int_text(i) == int_text(j),
    ensures
        i == j,
{
    if i < 0 && j < 0 {
        lemma_cancel(seq!['-'], dec_text((-i) as nat), seq!['-'], dec_text((-j) as nat));
        lemma_dec_text_inj((-i) as nat, (-j) as nat);
    } else if i < 0 {
        lemma_dec_text_shape((-i) as nat);
        lemma_dec_text_shape(j as nat);
        assert(int_text(i)[0] == '-');
        assert(is_digit(int_text(j)[0]));
    } else if j < 0 {
        lemma_dec_text_shape(i as nat);
        lemma_dec_text_shape((-j) as nat);
        assert(int_text(j)[0] == '-');
        assert(is_digit(int_text(i)[0]));
    } else {
        lemma_dec_text_inj(i as nat, j as nat);
    }
}

/// The first character of a well-formed value's canonical text decides its
/// class: keyword head, numeral head, quote, bracket or brace.
proof fn lemma_ser_head(v: ExternalValue)
    requires
        wf_external(v),
    ensures
        ser(v).len() >= 1,
        match v {
            ExternalValue::Null => ser(v)[0] == 'n',
            ExternalValue::Boolean(b) => ser(v)[0] == if b {
                't'
            } else {
                'f'
            },
            ExternalValue::Int(_) => is_digit(ser(v)[0]) || ser(v)[0] == '-',
            ExternalValue::Real(_) => is_digit(ser(v)[0]) || ser(v)[0] == '-',
            ExternalValue::Str(_) => ser(v)[0] == '"',
            ExternalValue::Array(_) => ser(v)[0] == '[',
            ExternalValue::Object(_) => ser(v)[0] == '{',
        },
{
    match v {
        ExternalValue::Int(i) => {
            lemma_int_text_shape(i as int);
        },
        _ => {},
    }
}

/// Two equally led numeric tokens followed by delimiter-led tails coincide.
proof fn lemma_token_det(sx: Seq<char>, sy: Seq<char>, u: Seq<char>, w: Seq<char>)
    requires
        sx + u == sy + w,
        sx.len() >= 1,
        sy.len() >= 1,
        forall|k: int| 0 <= k < sx.len() ==> is_num_char(#[trigger] sx[k]),
        forall|k: int| 0 <= k < sy.len() ==> is_num_char(#[trigger] sy[k]),
        delim_led(u),
        delim_led(w),
    ensures
        sx == sy,
        u == w,
{
    if sx.len() < sy.len() {
        assert(u.len() >= 1);
        assert((sx + u)[sx.len() as int] == u[0]);
        assert((sy + w)[sx.len() as int] == sy[sx.len() as int]);
        assert(is_num_char(sy[sx.len() as int]));
        assert(false);
    } else if sy.len() < sx.len() {
        assert(w.len() >= 1);
        assert((sy + w)[sy.len() as int] == w[0]);
        assert((sx + u)[sy.len() as int] == sx[sy.len() as int]);
        assert(is_num_char(sx[sy.len() as int]));
        assert(false);
    }
    assert forall|k: int| 0 <= k < sx.len() implies sx[k] == sy[k] by {
        assert((sx + u)[k] == sx[k]);
        assert((sy + w)[k] == sy[k]);
    }
    assert(sx =~= sy);
    lemma_cancel(sx, u, sy, w);
}

/// Scanning an escaped string body is deterministic: the first unescaped
/// quote closes it, so equal streams mean equal contents and equal tails.
proof fn lemma_body_det(a: Seq<char>, b: Seq<char>, u: Seq<char>, w: Seq<char>)
    requires
        str_body(a) + seq!['"'] + u == str_body(b) + seq!['"'] + w,
    ensures
        a == b,
        u == w,
    decreases a.len(),
{
    let la = str_body(a) + seq!['"'] + u;
    let lb = str_body(b) + seq!['"'] + w;
    if a.len() == 0 && b.len() == 0 {
        assert(str_body(a) + seq!['"'] =~= seq!['"']);
        assert(str_body(b) + seq!['"'] =~= seq!['"']);
        lemma_cancel(seq!['"'], u, seq!['"'], w);
        assert(a =~= b);
    } else if a.len() == 0 {
        assert(la[0] == '"');
        assert(str_body(b) == esc_char(b[0]) + str_body(b.drop_first()));
        assert(str_body(b)[0] == esc_char(b[0])[0]);
        assert(lb[0] == str_body(b)[0]);
        assert(esc_char(b[0])[0] != '"');
        assert(false);
    } else if b.len() == 0 {
        assert(lb[0] == '"');
        assert(str_body(a) == esc_char(a[0]) + str_body(a.drop_first()));
        assert(str_body(a)[0] == esc_char(a[0])[0]);
        assert(la[0] == str_body(a)[0]);
        assert(esc_char(a[0])[0] != '"');
        assert(false);
    } else {
        let ea = esc_char(a[0]);
        let eb = esc_char(b[0]);
        let ra = str_body(a.drop_first()) + seq!['"'] + u;
        let rb = str_body(b.drop_first()) + seq!['"'] + w;
        assert(str_body(a) == ea + str_body(a.drop_first()));
        assert(str_body(b) == eb + str_body(b.drop_first()));
        assert(la =~= ea + ra);
        assert(lb =~= eb + rb);
        assert(la[0] == ea[0] && lb[0] == eb[0]);
        if ea.len() == 1 && eb.len() == 1 {
            assert(a[0] == b[0]);
            lemma_cancel(ea, ra, eb, rb);
        } else if ea.len() == 2 && eb.len() == 2 {
            assert(ea[0] == '\\' && eb[0] == '\\');
            assert(la[1] == ea[1] && lb[1] == eb[1]);
            assert(ea[1] == a[0] && eb[1] == b[0]);
            assert(a[0] == b[0]);
            lemma_cancel(ea, ra, eb, rb);
        } else if ea.len() == 1 {
            assert(ea[0] == a[0] && a[0] != '\\');
            assert(eb[0] == '\\');
            assert(false);
        } else {
            assert(eb[0] == b[0] && b[0] != '\\');
            assert(ea[0] == '\\');
            assert(false);
        }
        lemma_body_det(a.drop_first(), b.drop_first(), u, w);
        assert(a.len() == b.len());
        assert forall|k: int| 0 <= k < a.len() implies a[k] == b[k] by {
            if k > 0 {
                assert(a.drop_first()[k - 1] == a[k]);
                assert(b.drop_first()[k - 1] == b[k]);
            }
        }
        assert(a =~= b);
    }
}

/// Two well-formed values followed by delimiter-led tails cannot share a
/// text stream without being the same value with the same tail.
pub proof fn lemma_ser_det(x: ExternalValue, y: ExternalValue, u: Seq<char>, w: Seq<char>)
    requires
        wf_external(x),
        wf_external(y),
        ser(x) + u == ser(y) + w,
        x is Int || x is Real || y is Int || y is Real ==> delim_led(u) && delim_led(w),
    ensures
        same_value(x, y),
        u == w,
    decreases x,
{
    lemma_ser_head(x);
    lemma_ser_head(y);
    let sx = ser(x);
    let sy = ser(y);
    assert((sx + u)[0] == sx[0]);
    assert((sy + w)[0] == sy[0]);
    match x {
        ExternalValue::Null => {
            assert(y is Null);
            lemma_cancel(sx, u, sy, w);
        },
        ExternalValue::Boolean(bx) => {
            let by = y->Boolean_0;
            assert(y is Boolean);
            assert(bx == by);
            lemma_cancel(sx, u, sy, w);
        },
        ExternalValue::Int(i) => {
            assert(y is Int || y is Real);
            lemma_int_text_shape(i as int);
            match y {
                ExternalValue::Int(j) => {
                    lemma_int_text_shape(j as int);
                    lemma_token_det(sx, sy, u, w);
                    lemma_int_text_inj(i as int, j as int);
                },
                ExternalValue::Real(t) => {
                    lemma_token_det(sx, sy, u, w);
                    assert(t@ == int_text(i as int));
                    assert(false);
                },
                _ => {
                    assert(false);
                },
            }
        },
        ExternalValue::Real(t1) => {
            assert(y is Int || y is Real);
            match y {
                ExternalValue::Int(j) => {
                    lemma_int_text_shape(j as int);
                    lemma_token_det(sx, sy, u, w);
                    assert(t1@ == int_text(j as int));
                    assert(false);
                },
                ExternalValue::Real(t2) => {
                    lemma_token_det(sx, sy, u, w);
                },
                _ => {
                    assert(false);
                },
            }
        },
        ExternalValue::Str(s1) => {
            assert(y is Str);
            let s2 = y->Str_0;
            let ra = str_body(s1@) + seq!['"'] + u;
            let rb = str_body(s2@) + seq!['"'] + w;
            assert(sx + u =~= seq!['"'] + ra);
            assert(sy + w =~= seq!['"'] + rb);
            lemma_cancel(seq!['"'], ra, seq!['"'], rb);
            lemma_body_det(s1@, s2@, u, w);
        },
        ExternalValue::Array(xs) => {
            assert(y is Array);
            let ys = y->Array_0;
            let ra = elems_text(xs@) + seq![']'] + u;
            let rb = elems_text(ys@) + seq![']'] + w;
            assert(sx + u =~= seq!['['] + ra);
            assert(sy + w =~= seq!['['] + rb);
            lemma_cancel(seq!['['], ra, seq!['['], rb);
            assert(decreases_to!(x => xs));
            assert(decreases_to!(xs => xs@));
            lemma_elems_det(xs@, ys@, u, w);
        },
        ExternalValue::Object(ps) => {
            assert(y is Object);
            let qs = y->Object_0;
            let ra = pairs_text(ps@) + seq!['}'] + u;
            let rb = pairs_text(qs@) + seq!['}'] + w;
            assert(sx + u =~= seq!['{'] + ra);
            assert(sy + w =~= seq!['{'] + rb);
            lemma_cancel(seq!['{'], ra, seq!['{'], rb);
            assert(decreases_to!(x => ps));
            assert(decreases_to!(ps => ps@));
            lemma_pairs_det(ps@, qs@, u, w);
        },
    }
}

/// Element lists inside brackets scan deterministically.
proof fn lemma_elems_det(
    l1: Seq<ExternalValue>,
    l2: Seq<ExternalValue>,
    u: Seq<char>,
    w: Seq<char>,
)
    requires
        forall|k: int| 0 <= k < l1.len() ==> wf_external(#[trigger] l1[k]),
        forall|k: int| 0 <= k < l2.len() ==> wf_external(#[trigger] l2[k]),
        elems_text(l1) + seq![']'] + u == elems_text(l2) + seq![']'] + w,
    ensures
        l1.len() == l2.len(),
        forall|k: int| 0 <= k < l1.len() ==> same_value(#[trigger] l1[k], l2[k]),
        u == w,
    decreases l1,
{
    let la = elems_text(l1) + seq![']'] + u;
    let lb = elems_text(l2) + seq![']'] + w;
    if l1.len() == 0 && l2.len() == 0 {
        assert(elems_text(l1) + seq![']'] =~= seq![']']);
        assert(elems_text(l2) + seq![']'] =~= seq![']']);
        lemma_cancel(seq![']'], u, seq![']'], w);
    } else if l1.len() == 0 {
        lemma_ser_head(l2[0]);
        assert(la[0] == ']');
        assert(elems_text(l2)[0] == ser(l2[0])[0]);
        assert(lb[0] == elems_text(l2)[0]);
        assert(false);
    } else if l2.len() == 0 {
        lemma_ser_head(l1[0]);
        assert(lb[0] == ']');
        assert(elems_text(l1)[0] == ser(l1[0])[0]);
        assert(la[0] == elems_text(l1)[0]);
        assert(false);
    } else {
        let c1 = if l1.len() == 1 {
            seq![']'] + u
        } else {
            seq![','] + (elems_text(l1.drop_first()) + seq![']'] + u)
        };
        let c2 = if l2.len() == 1 {
            seq![']'] + w
        } else {
            seq![','] + (elems_text(l2.drop_first()) + seq![']'] + w)
        };
        assert(la =~= ser(l1[0]) + c1);
        assert(lb =~= ser(l2[0]) + c2);
        assert(delim_led(c1) && delim_led(c2));
        lemma_ser_det(l1[0], l2[0], c1, c2);
        if l1.len() == 1 && l2.len() == 1 {
            lemma_cancel(seq![']'], u, seq![']'], w);
        } else if l1.len() == 1 {
            assert(c1[0] == ']' && c2[0] == ',');
            assert(false);
        } else if l2.len() == 1 {
            assert(c1[0] == ',' && c2[0] == ']');
            assert(false);
        } else {
            lemma_cancel(
                seq![','],
                elems_text(l1.drop_first()) + seq![']'] + u,
                seq![','],
                elems_text(l2.drop_first()) + seq![']'] + w,
            );
            lemma_elems_det(l1.drop_first(), l2.drop_first(), u, w);
            assert forall|k: int| 0 <= k < l1.len() implies same_value(#[trigger] l1[k], l2[k]) by {
                if k > 0 {
                    assert(l1.drop_first()[k - 1] == l1[k]);
                    assert(l2.drop_first()[k - 1] == l2[k]);
                    assert(same_value(l1.drop_first()[k - 1], l2.drop_first()[k - 1]));
                }
            }
        }
    }
}

/// Key/value pair lists inside braces scan deterministically.
#[verifier::rlimit(100)]
proof fn lemma_pairs_det(
    l1: Seq<(String, ExternalValue)>,
    l2: Seq<(String, ExternalValue)>,
    u: Seq<char>,
    w: Seq<char>,
)
    requires
        forall|k: int| 0 <= k < l1.len() ==> wf_external((#[trigger] l1[k]).1),
        forall|k: int| 0 <= k < l2.len() ==> wf_external((#[trigger] l2[k]).1),
        pairs_text(l1) + seq!['}'] + u == pairs_text(l2) + seq!['}'] + w,
    ensures
        l1.len() == l2.len(),
        forall|k: int|
            0 <= k < l1.len() ==> (#[trigger] l1[k]).0@ == l2[k].0@ && same_value(
                l1[k].1,
                l2[k].1,
            ),
        u == w,
    decreases l1,
{
    let la = pairs_text(l1) + seq!['}'] + u;
    let lb = pairs_text(l2) + seq!['}'] + w;
    if l1.len() == 0 && l2.len() == 0 {
        assert(pairs_text(l1) + seq!['}'] =~= seq!['}']);
        assert(pairs_text(l2) + seq!['}'] =~= seq!['}']);
        lemma_cancel(seq!['}'], u, seq!['}'], w);
    } else if l1.len() == 0 {
        assert(la[0] == '}');
        assert(pair_text(l2[0])[0] == '"');
        assert(pairs_text(l2)[0] == pair_text(l2[0])[0]);
        assert(lb[0] == pairs_text(l2)[0]);
        assert(false);
    } else if l2.len() == 0 {
        assert(lb[0] == '}');
        assert(pair_text(l1[0])[0] == '"');
        assert(pairs_text(l1)[0] == pair_text(l1[0])[0]);
        assert(la[0] == pairs_text(l1)[0]);
        assert(false);
    } else {
        let c1 = if l1.len() == 1 {
            seq!['}'] + u
        } else {
            seq![','] + (pairs_text(l1.drop_first()) + seq!['}'] + u)
        };
        let c2 = if l2.len() == 1 {
            seq!['}'] + w
        } else {
            seq![','] + (pairs_text(l2.drop_first()) + seq!['}'] + w)
        };
        let k1 = l1[0].0@;
        let k2 = l2[0].0@;
        let v1 = l1[0].1;
        let v2 = l2[0].1;
        let d1 = seq![':'] + (ser(v1) + c1);
        let d2 = seq![':'] + (ser(v2) + c2);
        assert(pair_text(l1[0]) =~= (seq!['"'] + str_body(k1) + seq!['"']) + seq![':'] + ser(v1));
        assert(la =~= seq!['"'] + (str_body(k1) + seq!['"'] + d1));
        assert(pair_text(l2[0]) =~= (seq!['"'] + str_body(k2) + seq!['"']) + seq![':'] + ser(v2));
        assert(lb =~= seq!['"'] + (str_body(k2) + seq!['"'] + d2));
        lemma_cancel(seq!['"'], str_body(k1) + seq!['"'] + d1, seq!['"'], str_body(k2) + seq!['"']
            + d2);
        lemma_body_det(k1, k2, d1, d2);
        lemma_cancel(seq![':'], ser(v1) + c1, seq![':'], ser(v2) + c2);
        assert(delim_led(c1) && delim_led(c2));
        lemma_ser_det(v1, v2, c1, c2);
        if l1.len() == 1 && l2.len() == 1 {
            lemma_cancel(seq!['}'], u, seq!['}'], w);
        } else if l1.len() == 1 {
            assert(c1[0] == '}' && c2[0] == ',');
            assert(false);
        } else if l2.len() == 1 {
            assert(c1[0] == ',' && c2[0] == '}');
            assert(false);
        } else {
            lemma_cancel(
                seq![','],
                pairs_text(l1.drop_first()) + seq!['}'] + u,
                seq![','],
                pairs_text(l2.drop_first()) + seq!['}'] + w,
            );
            lemma_pairs_det(l1.drop_first(), l2.drop_first(), u, w);
            assert forall|k: int|
                0 <= k < l1.len() implies (#[trigger] l1[k]).0@ == l2[k].0@ && same_value(
                l1[k].1,
                l2[k].1,
            ) by {
                if k > 0 {
                    assert(l1.drop_first()[k - 1] == l1[k]);
                    assert(l2.drop_first()[k - 1] == l2[k]);
                    assert(l1.drop_first()[k - 1].0@ == l2.drop_first()[k - 1].0@ && same_value(
                        l1.drop_first()[k - 1].1,
                        l2.drop_first()[k - 1].1,
                    ));
                }
            }
        }
    }
}

/// Two well-formed values read from the same position of one text, each
/// with any numeric token ended, occupy the same slice and are the same
/// value.
pub proof fn lemma_align(
    x: ExternalValue,
    y: ExternalValue,
    s: Seq<char>,
    i: int,
    jx: int,
    jy: int,
)
    requires
        wf_external(x),
        wf_external(y),
        0 <= i <= jx <= s.len(),
        i <= jy <= s.len(),
        ser(x) == s.subrange(i, jx),
        ser(y) == s.subrange(i, jy),
        x is Int || x is Real ==> jx == s.len() || !is_num_char(s[jx]),
        y is Int || y is Real ==> jy == s.len() || !is_num_char(s[jy]),
    ensures
        jx == jy,
        same_value(x, y),
{
    let n = s.len() as int;
    let u = s.subrange(jx, n);
    let w = s.subrange(jy, n);
    assert(ser(x) + u =~= s.subrange(i, n));
    assert(ser(y) + w =~= s.subrange(i, n));
    lemma_ser_head(x);
    lemma_ser_head(y);
    assert(ser(x)[0] == s[i]);
    assert(ser(y)[0] == s[i]);
    if x is Int || x is Real || y is Int || y is Real {
        assert(is_digit(s[i]) || s[i] == '-');
        assert(x is Int || x is Real);
        assert(y is Int || y is Real);
        if jx < n {
            assert(u[0] == s[jx]);
        }
        if jy < n {
            assert(w[0] == s[jy]);
        }
    }
    lemma_ser_det(x, y, u, w);
    assert(u.len() == w.len());
}

/// The first character of a well-formed value's canonical text determines
/// which class of value stands there, and for keywords the whole text.
pub(crate) proof fn lemma_head_class(w: ExternalValue)
    requires
        wf_external(w),
    ensures
        ser(w).len() >= 1,
        ser(w)[0] == 'n' ==> w is Null && ser(w) == seq!['n', 'u', 'l', 'l'],
        ser(w)[0] == 't' ==> w == ExternalValue::Boolean(true) && ser(w) == seq!['t', 'r', 'u', 'e'],
        ser(w)[0] == 'f' ==> w == ExternalValue::Boolean(false) && ser(w) == seq!['f', 'a', 'l', 's', 'e'],
        ser(w)[0] == '"' ==> w is Str,
        ser(w)[0] == '[' ==> w is Array,
        ser(w)[0] == '{' ==> w is Object,
        is_digit(ser(w)[0]) || ser(w)[0] == '-' ==> w is Int || w is Real,
        match w {
            ExternalValue::Null => ser(w)[0] == 'n',
            ExternalValue::Boolean(b) => ser(w)[0] == if b {
                't'
            } else {
                'f'
            },
            ExternalValue::Int(_) => is_digit(ser(w)[0]) || ser(w)[0] == '-',
            ExternalValue::Real(_) => is_digit(ser(w)[0]) || ser(w)[0] == '-',
            ExternalValue::Str(_) => ser(w)[0] == '"',
            ExternalValue::Array(_) => ser(w)[0] == '[',
            ExternalValue::Object(_) => ser(w)[0] == '{',
        },
{
    lemma_ser_head(w);
}

/// No two well-formed values share their canonical text.
pub proof fn lemma_ser_injective(x: ExternalValue, y: ExternalValue)
    requires
        wf_external(x),
        wf_external(y),
        ser(x) == ser(y),
    ensures
        same_value(x, y),
{
    let e = Seq::<char>::empty();
    assert(ser(x) + e =~= ser(x));
    assert(ser(y) + e =~= ser(y));
    lemma_ser_det(x, y, e, e);
}

} // verus!

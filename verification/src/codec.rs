//! The canonical text form of a boundary value, the verified writer that
//! produces it, and an opportunistic reader that recovers a value from text.
//!
//! The reader is proved sound and complete: whatever it returns is well
//! formed and serializes back to exactly the text it was read from, and it
//! fails only on text that is no well-formed value's canonical form.

use crate::text::{
    chars_eq, chars_of, int_text, int_to_string, is_canonical_int, is_digit, is_num_char,
    is_real_text, parse_int_text, string_of,
};
use crate::unique::{lemma_align, lemma_head_class};
use crate::value::{wf_external, ExternalValue};
use vstd::assert_by_contradiction;
use vstd::prelude::*;

verus! {

broadcast use {vstd::seq::group_seq_axioms, vstd::std_specs::vec::group_vec_axioms};

/// How one character appears inside a quoted string: a backslash escape for
/// the quote and the backslash, the character itself otherwise.
pub open spec fn esc_char(c: char) -> Seq<char> {
    if c == '"' {
        seq!['\\', '"']
    } else if c == '\\' {
        seq!['\\', '\\']
    } else {
        seq![c]
    }
}

/// The body of a quoted string: each character escaped, concatenated.
pub open spec fn str_body(s: Seq<char>) -> Seq<char>
    decreases s.len(),
{
    if s.len() == 0 {
        Seq::empty()
    } else {
        esc_char(s[0]) + str_body(s.drop_first())
    }
}

/// A quoted string: the escaped body between double quotes.
pub open spec fn str_text(s: Seq<char>) -> Seq<char> {
    seq!['"'] + str_body(s) + seq!['"']
}

/// The canonical text of a boundary value.  Nulls and booleans are the usual
/// keywords, numbers their numerals, strings quoted, arrays bracketed and
/// comma-separated, objects braced with `"key":value` pairs in order.
pub open spec fn ser(v: ExternalValue) -> Seq<char>
    decreases v,
{
    match v {
        ExternalValue::Null => seq!['n', 'u', 'l', 'l'],
        ExternalValue::Boolean(b) => if b {
            seq!['t', 'r', 'u', 'e']
        } else {
            seq!['f', 'a', 'l', 's', 'e']
        },
        ExternalValue::Int(i) => int_text(i as int),
        ExternalValue::Real(t) => t@,
        ExternalValue::Str(s) => str_text(s@),
        ExternalValue::Array(xs) => seq!['['] + elems_text(xs@) + seq![']'],
        ExternalValue::Object(ps) => seq!['{'] + pairs_text(ps@) + seq!['}'],
    }
}

/// The comma-separated canonical texts of a sequence of values.
pub open spec fn elems_text(l: Seq<ExternalValue>) -> Seq<char>
    decreases l,
{
    if l.len() == 0 {
        Seq::empty()
    } else if l.len() == 1 {
        ser(l[0])
    } else {
        ser(l[0]) + seq![','] + elems_text(l.drop_first())
    }
}

/// The comma-separated canonical texts of a sequence of key/value pairs.
pub open spec fn pairs_text(l: Seq<(String, ExternalValue)>) -> Seq<char>
    decreases l,
{
    if l.len() == 0 {
        Seq::empty()
    } else if l.len() == 1 {
        pair_text(l[0])
    } else {
        pair_text(l[0]) + seq![','] + pairs_text(l.drop_first())
    }
}

/// The canonical text of one key/value pair.
pub open spec fn pair_text(p: (String, ExternalValue)) -> Seq<char>
    decreases p,
{
    str_text(p.0@) + seq![':'] + ser(p.1)
}

/// Appending one element extends the comma-separated text by a separator
/// (when anything precedes) and the element's own text.
proof fn lemma_elems_snoc(l: Seq<ExternalValue>, x: ExternalValue)
    ensures
        elems_text(l.push(x)) == if l.len() == 0 {
            ser(x)
        } else {
            elems_text(l) + seq![','] + elems_text(seq![x])
        },
    decreases l.len(),
{
    let lx = l.push(x);
    if l.len() == 0 {
        assert(lx.len() == 1);
        assert(lx[0] == x);
    } else {
        assert(lx[0] == l[0]);
        assert(lx.drop_first() =~= l.drop_first().push(x));
        lemma_elems_snoc(l.drop_first(), x);
        if l.len() == 1 {
            assert(elems_text(lx) == ser(l[0]) + seq![','] + elems_text(seq![x]));
            assert(elems_text(l) == ser(l[0]));
        } else {
            assert(elems_text(lx) == ser(l[0]) + seq![','] + elems_text(l.drop_first().push(x)));
            assert(elems_text(l.drop_first().push(x)) == elems_text(l.drop_first()) + seq![',']
                + elems_text(seq![x]));
            assert((ser(l[0]) + seq![','] + (elems_text(l.drop_first()) + seq![','] + elems_text(
                seq![x],
            ))) =~= ((ser(l[0]) + seq![','] + elems_text(l.drop_first())) + seq![','] + elems_text(
                seq![x],
            )));
        }
    }
}

/// The pair analogue of `lemma_elems_snoc`.
proof fn lemma_pairs_snoc(l: Seq<(String, ExternalValue)>, x: (String, ExternalValue))
    ensures
        pairs_text(l.push(x)) == if l.len() == 0 {
            pair_text(x)
        } else {
            pairs_text(l) + seq![','] + pairs_text(seq![x])
        },
    decreases l.len(),
{
    let lx = l.push(x);
    if l.len() == 0 {
        assert(lx.len() == 1);
        assert(lx[0] == x);
    } else {
        assert(lx[0] == l[0]);
        assert(lx.drop_first() =~= l.drop_first().push(x));
        lemma_pairs_snoc(l.drop_first(), x);
        if l.len() == 1 {
            assert(pairs_text(l) == pair_text(l[0]));
        } else {
            assert(pairs_text(lx) == pair_text(l[0]) + seq![','] + pairs_text(
                l.drop_first().push(x),
            ));
            assert((pair_text(l[0]) + seq![','] + (pairs_text(l.drop_first()) + seq![',']
                + pairs_text(seq![x]))) =~= ((pair_text(l[0]) + seq![','] + pairs_text(
                l.drop_first(),
            )) + seq![','] + pairs_text(seq![x])));
        }
    }
}

/// Writes the escaped body of a quoted string.
fn write_str_body(s: &Vec<char>, out: &mut Vec<char>)
    ensures
        final(out)@ == old(out)@ + str_body(s@),
{
    let mut k: usize = 0;
    while k < s.len()
        invariant
            k <= s@.len(),
            out@ == old(out)@ + str_body(s@.take(k as int)),
        decreases s@.len() - k,
    {
        let c = s[k];
        if c == '"' || c == '\\' {
            out.push('\\');
        }
        out.push(c);
        proof {
            lemma_str_body_snoc(s@.take(k as int), c);
            assert(s@.take(k as int).push(c) =~= s@.take(k as int + 1));
        }
        k += 1;
    }
    proof {
        assert(s@.take(s@.len() as int) =~= s@);
    }
}

/// Appending one character extends the escaped body by that character's
/// escape.
proof fn lemma_str_body_snoc(s: Seq<char>, c: char)
    ensures
        str_body(s.push(c)) == str_body(s) + esc_char(c),
    decreases s.len(),
{
    let sx = s.push(c);
    if s.len() == 0 {
        assert(sx.drop_first() =~= Seq::<char>::empty());
        assert(str_body(sx) == esc_char(c) + str_body(Seq::<char>::empty()));
        assert(esc_char(c) + Seq::<char>::empty() =~= esc_char(c));
        assert(str_body(s) + esc_char(c) =~= esc_char(c));
    } else {
        assert(sx[0] == s[0]);
        assert(sx.drop_first() =~= s.drop_first().push(c));
        lemma_str_body_snoc(s.drop_first(), c);
        assert((esc_char(s[0]) + (str_body(s.drop_first()) + esc_char(c))) =~= ((esc_char(s[0])
            + str_body(s.drop_first())) + esc_char(c)));
    }
}

/// Writes a quoted string.
fn write_str(s: &str, out: &mut Vec<char>)
    ensures
        final(out)@ == old(out)@ + str_text(s@),
{
    out.push('"');
    let cs = chars_of(s);
    write_str_body(&cs, out);
    out.push('"');
    proof {
        assert(old(out)@ + str_text(s@) =~= ((old(out)@ + seq!['"']) + str_body(s@)).push('"'));
    }
}

/// Writes the canonical text of a value after whatever `out` already holds.
#[verifier::loop_isolation(false)]
pub fn write_value(v: &ExternalValue, out: &mut Vec<char>)
    ensures
        final(out)@ == old(out)@ + ser(*v),
    decreases *v,
{
    match v {
        ExternalValue::Null => {
            out.push('n');
            out.push('u');
            out.push('l');
            out.push('l');
            proof {
                assert(old(out)@ + ser(*v) =~= old(out)@.push('n').push('u').push('l').push('l'));
            }
        },
        ExternalValue::Boolean(b) => {
            if *b {
                out.push('t');
                out.push('r');
                out.push('u');
                out.push('e');
                proof {
                    assert(old(out)@ + ser(*v) =~= old(out)@.push('t').push('r').push('u').push(
                        'e',
                    ));
                }
            } else {
                out.push('f');
                out.push('a');
                out.push('l');
                out.push('s');
                out.push('e');
                proof {
                    assert(old(out)@ + ser(*v) =~= old(out)@.push('f').push('a').push('l').push(
                        's',
                    ).push('e'));
                }
            }
        },
        ExternalValue::Int(i) => {
            let t = int_to_string(*i);
            let cs = chars_of(t.as_str());
            append_chars(&cs, out);
        },
        ExternalValue::Real(t) => {
            let cs = chars_of(t.as_str());
            append_chars(&cs, out);
        },
        ExternalValue::Str(s) => {
            write_str(s.as_str(), out);
        },
        ExternalValue::Array(xs) => {
            out.push('[');
            let ghost base = old(out)@ + seq!['['];
            let mut k: usize = 0;
            while k < xs.len()
                invariant
                    k <= xs@.len(),
                    out@ == base + elems_text(xs@.take(k as int)),
                decreases xs@.len() - k,
            {
                if k > 0 {
                    out.push(',');
                }
                proof {
                    assert(decreases_to!(*v => *xs));
                    assert(decreases_to!(*xs => xs@));
                    assert(decreases_to!(xs@ => xs@[k as int]));
                    assert(decreases_to!(*v => xs@[k as int]));
                }
                write_value(&xs[k], out);
                proof {
                    lemma_elems_snoc(xs@.take(k as int), xs@[k as int]);
                    assert(elems_text(seq![xs@[k as int]]) == ser(xs@[k as int]));
                    assert(xs@.take(k as int).push(xs@[k as int]) =~= xs@.take(k as int + 1));
                    if k == 0 {
                        assert(out@ =~= base + elems_text(xs@.take(k as int + 1)));
                    } else {
                        assert(out@ =~= base + (elems_text(xs@.take(k as int)) + seq![','] + ser(
                            xs@[k as int],
                        )));
                    }
                }
                k += 1;
            }
            out.push(']');
            proof {
                assert(xs@.take(xs@.len() as int) =~= xs@);
                assert(old(out)@ + ser(*v) =~= (base + elems_text(xs@)).push(']'));
            }
        },
        ExternalValue::Object(ps) => {
            out.push('{');
            let ghost base = old(out)@ + seq!['{'];
            let mut k: usize = 0;
            while k < ps.len()
                invariant
                    k <= ps@.len(),
                    out@ == base + pairs_text(ps@.take(k as int)),
                decreases ps@.len() - k,
            {
                if k > 0 {
                    out.push(',');
                }
                let ghost mid = out@;
                write_str(ps[k].0.as_str(), out);
                out.push(':');
                proof {
                    assert(decreases_to!(*v => *ps));
                    assert(decreases_to!(*ps => ps@));
                    assert(decreases_to!(ps@ => ps@[k as int]));
                    assert(decreases_to!(ps@[k as int] => ps@[k as int].1));
                    assert(decreases_to!(*v => ps@[k as int].1));
                }
                write_value(&ps[k].1, out);
                proof {
                    lemma_pairs_snoc(ps@.take(k as int), ps@[k as int]);
                    assert(pairs_text(seq![ps@[k as int]]) == pair_text(ps@[k as int]));
                    assert(ps@.take(k as int).push(ps@[k as int]) =~= ps@.take(k as int + 1));
                    assert(out@ =~= mid + pair_text(ps@[k as int]));
                    if k == 0 {
                        assert(out@ =~= base + pairs_text(ps@.take(k as int + 1)));
                    } else {
                        assert(out@ =~= base + (pairs_text(ps@.take(k as int)) + seq![',']
                            + pair_text(ps@[k as int])));
                    }
                }
                k += 1;
            }
            out.push('}');
            proof {
                assert(ps@.take(ps@.len() as int) =~= ps@);
                assert(old(out)@ + ser(*v) =~= (base + pairs_text(ps@)).push('}'));
            }
        },
    }
}

/// Appends a buffer of characters.
fn append_chars(cs: &Vec<char>, out: &mut Vec<char>)
    ensures
        final(out)@ == old(out)@ + cs@,
{
    let mut k: usize = 0;
    while k < cs.len()
        invariant
            k <= cs@.len(),
            out@ == old(out)@ + cs@.take(k as int),
        decreases cs@.len() - k,
    {
        out.push(cs[k]);
        proof {
            assert(cs@.take(k as int).push(cs@[k as int]) =~= cs@.take(k as int + 1));
        }
        k += 1;
    }
    proof {
        assert(cs@.take(cs@.len() as int) =~= cs@);
    }
}

/// The canonical text of a value, as a string.
pub fn serialize_value(v: &ExternalValue) -> (r: String)
    ensures
        r@ == ser(*v),
{
    let mut out: Vec<char> = Vec::new();
    write_value(v, &mut out);
    string_of(&out)
}

/// Executable test for `is_num_char`.
fn is_num_char_exec(c: char) -> (r: bool)
    ensures
        r == is_num_char(c),
{
    ('0' <= c && c <= '9') || c == '-' || c == '+' || c == '.' || c == 'e' || c == 'E'
}

/// Executable test for `is_real_text`.
fn is_real_text_exec(t: &str) -> (r: bool)
    ensures
        r == is_real_text(t@),
{
    let cs = chars_of(t);
    if cs.len() == 0 {
        return false;
    }
    let c0 = cs[0];
    if !(('0' <= c0 && c0 <= '9') || c0 == '-') {
        proof {
            assert(!(is_digit(t@[0]) || t@[0] == '-'));
        }
        return false;
    }
    let mut k: usize = 0;
    while k < cs.len()
        invariant
            k <= cs@.len(),
            cs@ == t@,
            forall|j: int| 0 <= j < k ==> is_num_char(#[trigger] t@[j]),
        decreases cs@.len() - k,
    {
        if !is_num_char_exec(cs[k]) {
            proof {
                assert(!is_num_char(t@[k as int]));
            }
            return false;
        }
        k += 1;
    }
    !is_canonical_int(t)
}


/// The escaped body of a concatenation splits at any point.
proof fn lemma_str_body_split(c: Seq<char>, m: int)
    requires
        0 <= m <= c.len(),
    ensures
        str_body(c) == str_body(c.take(m)) + str_body(c.skip(m)),
        str_body(c.take(m)).len() <= str_body(c).len(),
    decreases m,
{
    if m == 0 {
        assert(c.take(0) =~= Seq::<char>::empty());
        assert(c.skip(0) =~= c);
        assert(str_body(Seq::<char>::empty()) + str_body(c) =~= str_body(c));
    } else {
        lemma_str_body_split(c.drop_first(), m - 1);
        assert(c.drop_first().take(m - 1) =~= c.take(m).drop_first());
        assert(c.drop_first().skip(m - 1) =~= c.skip(m));
        assert(c.take(m)[0] == c[0]);
        assert(str_body(c.take(m)) == esc_char(c[0]) + str_body(c.take(m).drop_first()));
        assert((esc_char(c[0]) + (str_body(c.take(m).drop_first()) + str_body(c.skip(m))))
            =~= ((esc_char(c[0]) + str_body(c.take(m).drop_first())) + str_body(c.skip(m))));
    }
}

/// Equal character streams with one equal prefix have equal remainders.
proof fn lemma_chars_cancel(p: Seq<char>, u: Seq<char>, q: Seq<char>, w: Seq<char>)
    requires
        p + u == q + w,
        p == q,
    ensures
        u == w,
{
    assert((p + u).len() == p.len() + u.len());
    assert((q + w).len() == q.len() + w.len());
    assert forall|k: int| 0 <= k < u.len() implies u[k] == w[k] by {
        assert((p + u)[p.len() + k] == u[k]);
        assert((q + w)[q.len() + k] == w[k]);
    }
    assert(u =~= w);
}

/// What it means for a quoted string to stand at `i` and end at `jw`.
spec fn quoted_at(s: Seq<char>, i: int, c: Seq<char>, jw: int) -> bool {
    i < jw <= s.len() && seq!['"'] + str_body(c) + seq!['"'] == s.subrange(i, jw)
}

/// Relates a partial scan of a quoted string to any way the string could
/// end: the scan has not passed the closing quote, and what remains to scan
/// is the escaped rest of the contents plus that quote.
proof fn lemma_scan_state(s: Seq<char>, i: int, k: int, b: Seq<char>, c: Seq<char>, jw: int)
    requires
        0 <= i < k <= s.len(),
        quoted_at(s, i, c, jw),
        str_body(b) == s.subrange(i + 1, k),
        b.len() <= c.len(),
        b == c.take(b.len() as int),
    ensures
        k < jw,
        str_body(c.skip(b.len() as int)) + seq!['"'] == s.subrange(k, jw),
{
    let m = b.len() as int;
    lemma_str_body_split(c, m);
    assert(str_body(c.take(m)) == str_body(b));
    assert(s.subrange(i, jw) =~= seq!['"'] + s.subrange(i + 1, jw));
    assert((seq!['"'] + (str_body(c) + seq!['"'])) =~= (seq!['"'] + str_body(c) + seq!['"']));
    lemma_chars_cancel(
        seq!['"'],
        str_body(c) + seq!['"'],
        seq!['"'],
        s.subrange(i + 1, jw),
    );
    assert((str_body(c) + seq!['"']).len() == jw - i - 1);
    assert(str_body(b).len() == k - i - 1);
    assert(k < jw);
    assert(s.subrange(i + 1, jw) =~= s.subrange(i + 1, k) + s.subrange(k, jw));
    assert(str_body(c) + seq!['"'] =~= str_body(b) + (str_body(c.skip(m)) + seq!['"']));
    lemma_chars_cancel(
        str_body(b),
        str_body(c.skip(m)) + seq!['"'],
        s.subrange(i + 1, k),
        s.subrange(k, jw),
    );
}

/// What the next characters of the stream look like while a quoted string's
/// contents are still being scanned.
proof fn lemma_rest_head(s: Seq<char>, k: int, jw: int, rest: Seq<char>)
    requires
        0 <= k < jw <= s.len(),
        str_body(rest) + seq!['"'] == s.subrange(k, jw),
        rest.len() > 0,
    ensures
        esc_char(rest[0])[0] == s[k],
        rest[0] == '"' || rest[0] == '\\' ==> s[k] == '\\' && k + 1 < jw && s[k + 1] == rest[0],
        !(rest[0] == '"' || rest[0] == '\\') ==> s[k] == rest[0],
{
    assert(str_body(rest) == esc_char(rest[0]) + str_body(rest.drop_first()));
    let t = str_body(rest) + seq!['"'];
    assert(t.len() == jw - k);
    assert(t[0] == s.subrange(k, jw)[0]);
    assert(s.subrange(k, jw)[0] == s[k]);
    assert(t[0] == str_body(rest)[0]);
    assert(str_body(rest)[0] == esc_char(rest[0])[0]);
    if rest[0] == '"' || rest[0] == '\\' {
        assert(esc_char(rest[0]).len() == 2);
        assert(t.len() >= 3);
        assert(k + 1 < jw);
        assert(t[1] == s.subrange(k, jw)[1]);
        assert(s.subrange(k, jw)[1] == s[k + 1]);
        assert(t[1] == str_body(rest)[1]);
        assert(str_body(rest)[1] == esc_char(rest[0])[1]);
        assert(esc_char(rest[0])[1] == rest[0]);
    } else {
        assert(esc_char(rest[0]) =~= seq![rest[0]]);
    }
}

/// Equal character streams split identically at any shared prefix length.
proof fn lemma_chars_split(p: Seq<char>, u: Seq<char>, q: Seq<char>, w: Seq<char>)
    requires
        p + u == q + w,
        p.len() == q.len(),
    ensures
        p == q,
        u == w,
{
    assert forall|k: int| 0 <= k < p.len() implies p[k] == q[k] by {
        assert((p + u)[k] == p[k]);
        assert((q + w)[k] == q[k]);
    }
    assert(p =~= q);
    lemma_chars_cancel(p, u, q, w);
}

/// Reads a quoted string starting at `i`; returns its contents and the
/// position after the closing quote.  Whatever it returns quotes back to
/// exactly the consumed slice, and it fails only where no quoted string
/// stands.
#[verifier::loop_isolation(false)]
fn read_string(s: &Vec<char>, i: usize) -> (r: Option<(String, usize)>)
    requires
        i < s@.len(),
    ensures
        r matches Some((t, j)) ==> i < j <= s@.len() && str_text(t@) == s@.subrange(
            i as int,
            j as int,
        ),
        r is None ==> forall|c: Seq<char>, jw: int| !quoted_at(s@, i as int, c, jw),
{
    let n = s.len();
    if s[i] != '"' {
        proof {
            assert forall|c: Seq<char>, jw: int| !quoted_at(s@, i as int, c, jw) by {
                if quoted_at(s@, i as int, c, jw) {
                    assert(s@.subrange(i as int, jw)[0] == s@[i as int]);
                    assert((seq!['"'] + str_body(c) + seq!['"'])[0] == '"');
                }
            }
        }
        return None;
    }
    let mut body: Vec<char> = Vec::new();
    let mut k: usize = i + 1;
    while k < s.len()
        invariant
            i < k <= s@.len(),
            str_body(body@) == s@.subrange(i as int + 1, k as int),
            forall|c: Seq<char>, jw: int|
                quoted_at(s@, i as int, c, jw) ==> body@.len() <= c.len() && body@ == c.take(
                    body@.len() as int,
                ),
        decreases s@.len() - k,
    {
        let c = s[k];
        if c == '"' {
            proof {
                assert(str_text(body@) =~= s@.subrange(i as int, k as int + 1));
            }
            return Some((string_of(&body), k + 1));
        }
        if c == '\\' {
            if k + 1 >= s.len() {
                proof {
                    assert forall|w: Seq<char>, jw: int| !quoted_at(s@, i as int, w, jw) by {
                        if quoted_at(s@, i as int, w, jw) {
                            let m = body@.len() as int;
                            lemma_scan_state(s@, i as int, k as int, body@, w, jw);
                            let rest = w.skip(m);
                            if rest.len() == 0 {
                                assert((str_body(rest) + seq!['"'])[0] == s@.subrange(
                                    k as int,
                                    jw,
                                )[0]);
                                assert(s@[k as int] == '"');
                            } else {
                                lemma_rest_head(s@, k as int, jw, rest);
                                assert(rest[0] == '"' || rest[0] == '\\');
                                assert(k as int + 1 < jw);
                            }
                        }
                    }
                }
                return None;
            }
            let d = s[k + 1];
            if d == '"' || d == '\\' {
                proof {
                    lemma_str_body_snoc(body@, d);
                    assert(esc_char(d) =~= seq!['\\', d]);
                    assert(s@.subrange(i as int + 1, k as int + 2) =~= s@.subrange(
                        i as int + 1,
                        k as int,
                    ).push(s@[k as int]).push(s@[k as int + 1]));
                    assert forall|w: Seq<char>, jw: int|
                        quoted_at(s@, i as int, w, jw) implies body@.push(d).len() <= w.len()
                        && body@.push(d) == w.take(body@.push(d).len() as int) by {
                        let m = body@.len() as int;
                        lemma_scan_state(s@, i as int, k as int, body@, w, jw);
                        let rest = w.skip(m);
                        if rest.len() == 0 {
                            assert((str_body(rest) + seq!['"'])[0] == s@.subrange(
                                k as int,
                                jw,
                            )[0]);
                            assert(s@[k as int] == '"');
                        } else {
                            lemma_rest_head(s@, k as int, jw, rest);
                            assert(rest[0] == '"' || rest[0] == '\\');
                            assert(rest[0] == s@[k as int + 1]);
                            assert(rest[0] == w[m]);
                            assert(body@.push(d) =~= w.take(m + 1));
                        }
                    }
                }
                body.push(d);
                k += 2;
            } else {
                proof {
                    assert forall|w: Seq<char>, jw: int| !quoted_at(s@, i as int, w, jw) by {
                        if quoted_at(s@, i as int, w, jw) {
                            let m = body@.len() as int;
                            lemma_scan_state(s@, i as int, k as int, body@, w, jw);
                            let rest = w.skip(m);
                            if rest.len() == 0 {
                                assert((str_body(rest) + seq!['"'])[0] == s@.subrange(
                                    k as int,
                                    jw,
                                )[0]);
                                assert(s@[k as int] == '"');
                            } else {
                                lemma_rest_head(s@, k as int, jw, rest);
                                assert(rest[0] == '"' || rest[0] == '\\');
                                assert(s@[k as int + 1] == rest[0]);
                            }
                        }
                    }
                }
                return None;
            }
        } else {
            proof {
                lemma_str_body_snoc(body@, c);
                assert(esc_char(c) =~= seq![c]);
                assert(s@.subrange(i as int + 1, k as int + 1) =~= s@.subrange(
                    i as int + 1,
                    k as int,
                ).push(s@[k as int]));
                assert forall|w: Seq<char>, jw: int|
                    quoted_at(s@, i as int, w, jw) implies body@.push(c).len() <= w.len()
                    && body@.push(c) == w.take(body@.push(c).len() as int) by {
                    let m = body@.len() as int;
                    lemma_scan_state(s@, i as int, k as int, body@, w, jw);
                    let rest = w.skip(m);
                    if rest.len() == 0 {
                        assert((str_body(rest) + seq!['"'])[0] == s@.subrange(k as int, jw)[0]);
                        assert(s@[k as int] == '"');
                    } else {
                        lemma_rest_head(s@, k as int, jw, rest);
                        assert(rest[0] == c);
                        assert(rest[0] == w[m]);
                        assert(body@.push(c) =~= w.take(m + 1));
                    }
                }
            }
            body.push(c);
            k += 1;
        }
    }
    proof {
        assert forall|w: Seq<char>, jw: int| !quoted_at(s@, i as int, w, jw) by {
            if quoted_at(s@, i as int, w, jw) {
                lemma_scan_state(s@, i as int, k as int, body@, w, jw);
            }
        }
    }
    None
}

/// Reads one value starting at `i`; returns it with the position after its
/// text.  Whatever it returns is well formed and serializes back to exactly
/// the consumed slice, so recovery can never misread stored text; and it
/// succeeds wherever a well-formed value stands with its token ended.
#[verifier::loop_isolation(false)]
fn read_value(s: &Vec<char>, i: usize) -> (r: Option<(ExternalValue, usize)>)
    requires
        i <= s@.len(),
    ensures
        r matches Some((v, j)) ==> i < j <= s@.len() && wf_external(v) && ser(v) == s@.subrange(
            i as int,
            j as int,
        ),
        r matches Some((v, j)) ==> ((v is Int || v is Real) ==> j == s@.len() || !is_num_char(
            s@[j as int],
        )),
        forall|w: ExternalValue, jw: int| value_at(s@, i as int, w, jw) ==> r is Some,
    decreases s@.len() - i, 1int,
{
    let n = s.len();
    if i >= n {
        proof {
            assert forall|w: ExternalValue, jw: int| !value_at(s@, i as int, w, jw) by {
                if value_at(s@, i as int, w, jw) {
                    lemma_head_class(w);
                }
            }
        }
        return None;
    }
    let c = s[i];
    if c == 'n' {
        if n - i >= 4 && s[i + 1] == 'u' && s[i + 2] == 'l' && s[i + 3] == 'l' {
            proof {
                assert(ser(ExternalValue::Null) =~= s@.subrange(i as int, i as int + 4));
            }
            return Some((ExternalValue::Null, i + 4));
        }
        proof {
            assert forall|w: ExternalValue, jw: int| !value_at(s@, i as int, w, jw) by {
                if value_at(s@, i as int, w, jw) {
                    lemma_head_class(w);
                    assert(ser(w)[0] == s@.subrange(i as int, jw)[0]);
                    assert(s@.subrange(i as int, jw)[0] == s@[i as int]);
                    assert(w is Null);
                    assert(jw - i == 4);
                    assert(s@.subrange(i as int, jw)[1] == s@[i as int + 1]);
                    assert(s@.subrange(i as int, jw)[2] == s@[i as int + 2]);
                    assert(s@.subrange(i as int, jw)[3] == s@[i as int + 3]);
                }
            }
        }
        return None;
    }
    if c == 't' {
        if n - i >= 4 && s[i + 1] == 'r' && s[i + 2] == 'u' && s[i + 3] == 'e' {
            proof {
                assert(ser(ExternalValue::Boolean(true)) =~= s@.subrange(i as int, i as int + 4));
            }
            return Some((ExternalValue::Boolean(true), i + 4));
        }
        proof {
            assert forall|w: ExternalValue, jw: int| !value_at(s@, i as int, w, jw) by {
                if value_at(s@, i as int, w, jw) {
                    lemma_head_class(w);
                    assert(ser(w)[0] == s@.subrange(i as int, jw)[0]);
                    assert(s@.subrange(i as int, jw)[0] == s@[i as int]);
                    assert(w == ExternalValue::Boolean(true));
                    assert(jw - i == 4);
                    assert(s@.subrange(i as int, jw)[1] == s@[i as int + 1]);
                    assert(s@.subrange(i as int, jw)[2] == s@[i as int + 2]);
                    assert(s@.subrange(i as int, jw)[3] == s@[i as int + 3]);
                }
            }
        }
        return None;
    }
    if c == 'f' {
        if n - i >= 5 && s[i + 1] == 'a' && s[i + 2] == 'l' && s[i + 3] == 's' && s[i + 4]
            == 'e' {
            proof {
                assert(ser(ExternalValue::Boolean(false)) =~= s@.subrange(i as int, i as int + 5));
            }
            return Some((ExternalValue::Boolean(false), i + 5));
        }
        proof {
            assert forall|w: ExternalValue, jw: int| !value_at(s@, i as int, w, jw) by {
                if value_at(s@, i as int, w, jw) {
                    lemma_head_class(w);
                    assert(ser(w)[0] == s@.subrange(i as int, jw)[0]);
                    assert(s@.subrange(i as int, jw)[0] == s@[i as int]);
                    assert(w == ExternalValue::Boolean(false));
                    assert(jw - i == 5);
                    assert(s@.subrange(i as int, jw)[1] == s@[i as int + 1]);
                    assert(s@.subrange(i as int, jw)[2] == s@[i as int + 2]);
                    assert(s@.subrange(i as int, jw)[3] == s@[i as int + 3]);
                    assert(s@.subrange(i as int, jw)[4] == s@[i as int + 4]);
                }
            }
        }
        return None;
    }
    if c == '"' {
        match read_string(s, i) {
            Some((t, j)) => {
                proof {
                    assert(ser(ExternalValue::Str(t)) == str_text(t@));
                }
                return Some((ExternalValue::Str(t), j));
            },
            None => {
                proof {
                    assert forall|w: ExternalValue, jw: int| !value_at(s@, i as int, w, jw) by {
                        if value_at(s@, i as int, w, jw) {
                            lemma_head_class(w);
                            assert(ser(w)[0] == s@.subrange(i as int, jw)[0]);
                            assert(s@.subrange(i as int, jw)[0] == s@[i as int]);
                            assert(w is Str);
                            let c0 = w->Str_0;
                            assert(str_text(c0@) =~= seq!['"'] + str_body(c0@) + seq!['"']);
                            assert(quoted_at(s@, i as int, c0@, jw));
                        }
                    }
                }
                return None;
            },
        }
    }
    if c == '-' || ('0' <= c && c <= '9') {
        return read_number(s, i);
    }
    if c == '[' {
        return read_array(s, i);
    }
    if c == '{' {
        return read_object(s, i);
    }
    proof {
        assert forall|w: ExternalValue, jw: int| !value_at(s@, i as int, w, jw) by {
            if value_at(s@, i as int, w, jw) {
                lemma_head_class(w);
                assert(ser(w)[0] == s@.subrange(i as int, jw)[0]);
                assert(s@.subrange(i as int, jw)[0] == s@[i as int]);
                match w {
                    ExternalValue::Null => {
                        assert(s@[i as int] == 'n');
                    },
                    ExternalValue::Boolean(b) => {
                        assert(s@[i as int] == 't' || s@[i as int] == 'f');
                    },
                    ExternalValue::Int(_) => {
                        assert(is_digit(s@[i as int]) || s@[i as int] == '-');
                    },
                    ExternalValue::Real(_) => {
                        assert(is_digit(s@[i as int]) || s@[i as int] == '-');
                    },
                    ExternalValue::Str(_) => {
                        assert(s@[i as int] == '"');
                    },
                    ExternalValue::Array(_) => {
                        assert(s@[i as int] == '[');
                    },
                    ExternalValue::Object(_) => {
                        assert(s@[i as int] == '{');
                    },
                }
            }
        }
    }
    None
}

/// Reads a numeric token: the canonical numeral of an integer becomes that
/// integer, any other token a non-integer number.  It always succeeds, and
/// it consumes the token whole.
#[verifier::loop_isolation(false)]
fn read_number(s: &Vec<char>, i: usize) -> (r: Option<(ExternalValue, usize)>)
    requires
        i < s@.len(),
        s@[i as int] == '-' || ('0' <= s@[i as int] && s@[i as int] <= '9'),
    ensures
        r matches Some((v, j)) ==> i < j <= s@.len() && wf_external(v) && ser(v) == s@.subrange(
            i as int,
            j as int,
        ),
        r matches Some((v, j)) ==> j == s@.len() || !is_num_char(s@[j as int]),
        r is Some,
{
    let n = s.len();
    let c = s[i];
    let mut tokv: Vec<char> = Vec::new();
    tokv.push(c);
    let mut j: usize = i + 1;
    proof {
        assert(tokv@ =~= s@.subrange(i as int, i as int + 1));
    }
    while j < n && is_num_char_exec(s[j])
        invariant
            i < j <= s@.len(),
            tokv@ == s@.subrange(i as int, j as int),
            tokv@.len() >= 1,
            forall|q: int| 0 <= q < tokv@.len() ==> is_num_char(#[trigger] tokv@[q]),
        decreases s@.len() - j,
    {
        proof {
            assert(s@.subrange(i as int, j as int + 1) =~= s@.subrange(i as int, j as int).push(
                s@[j as int],
            ));
        }
        tokv.push(s[j]);
        j += 1;
    }
    let tok = string_of(&tokv);
    match parse_int_text(tok.as_str()) {
        Some(m) => {
            let canon = int_to_string(m);
            let ca = chars_of(canon.as_str());
            let ta = chars_of(tok.as_str());
            if chars_eq(&ca, &ta) {
                Some((ExternalValue::Int(m), j))
            } else {
                proof {
                    assert_by_contradiction!(!exists|m2: i64| tok@ == int_text(m2 as int), {
                        let m2 = choose|m2: i64| tok@ == int_text(m2 as int);
                    });
                }
                Some((ExternalValue::Real(tok), j))
            }
        },
        None => {
            proof {
                assert_by_contradiction!(!exists|m2: i64| tok@ == int_text(m2 as int), {
                    let m2 = choose|m2: i64| tok@ == int_text(m2 as int);
                });
            }
            Some((ExternalValue::Real(tok), j))
        },
    }
}

/// What it means for a well-formed array to stand at `i` and end at `jw`.
spec fn arr_at(s: Seq<char>, i: int, xs: Seq<ExternalValue>, jw: int) -> bool {
    &&& forall|k: int| 0 <= k < xs.len() ==> wf_external(#[trigger] xs[k])
    &&& 0 <= i < jw <= s.len()
    &&& seq!['['] + elems_text(xs) + seq![']'] == s.subrange(i, jw)
    &&& (jw == s.len() || !is_num_char(s[jw]))
}

/// A well-formed value starting with the opening bracket is an array whose
/// element list stands right after it.
proof fn lemma_value_at_array(s: Seq<char>, i: int, w: ExternalValue, jw: int)
    requires
        value_at(s, i, w, jw),
        s[i] == '[',
    ensures
        w is Array,
        arr_at(s, i, w->Array_0@, jw),
{
    lemma_head_class(w);
    assert(ser(w)[0] == s.subrange(i, jw)[0]);
    assert(s.subrange(i, jw)[0] == s[i]);
}

/// Reads a bracketed, comma-separated array.  It succeeds wherever a
/// well-formed value stands.
#[verifier::loop_isolation(false)]
#[verifier::rlimit(100)]
fn read_array(s: &Vec<char>, i: usize) -> (r: Option<(ExternalValue, usize)>)
    requires
        i < s@.len(),
        s@[i as int] == '[',
    ensures
        r matches Some((v, j)) ==> i < j <= s@.len() && wf_external(v) && v is Array && ser(v)
            == s@.subrange(i as int, j as int),
        forall|w: ExternalValue, jw: int| value_at(s@, i as int, w, jw) ==> r is Some,
    decreases s@.len() - i, 0int,
{
    let n = s.len();
    let mut elems: Vec<ExternalValue> = Vec::new();
    let mut cur: usize = i + 1;
    if cur < s.len() && s[cur] == ']' {
        proof {
            assert(ser(ExternalValue::Array(elems)) =~= s@.subrange(i as int, cur as int + 1));
        }
        return Some((ExternalValue::Array(elems), cur + 1));
    }
    proof {
        assert forall|xs: Seq<ExternalValue>, jw: int|
            arr_at(s@, i as int, xs, jw) implies xs.len() > 0 && (i as int + 1) < jw
            && elems_text(xs.skip(0)) + seq![']'] == s@.subrange(i as int + 1, jw) by {
            assert(xs.skip(0) =~= xs);
            assert(s@.subrange(i as int, jw) =~= seq!['['] + s@.subrange(i as int + 1, jw));
            assert((seq!['['] + (elems_text(xs) + seq![']'])) =~= (seq!['['] + elems_text(xs)
                + seq![']']));
            lemma_chars_cancel(
                seq!['['],
                elems_text(xs) + seq![']'],
                seq!['['],
                s@.subrange(i as int + 1, jw),
            );
            assert((elems_text(xs) + seq![']']).len() == jw - i - 1);
            if xs.len() == 0 {
                assert((elems_text(xs) + seq![']']).len() == 1);
                assert(jw == i + 2);
                assert((elems_text(xs) + seq![']'])[0] == ']');
                assert(s@.subrange(i as int + 1, jw)[0] == s@[i as int + 1]);
            }
        }
    }
    loop
        invariant
            i < cur <= s@.len(),
            forall|q: int| 0 <= q < elems@.len() ==> wf_external(#[trigger] elems@[q]),
            if elems@.len() == 0 {
                cur == i + 1
            } else {
                s@.subrange(i as int + 1, cur as int) == elems_text(elems@) + seq![',']
            },
            forall|xs: Seq<ExternalValue>, jw: int|
                arr_at(s@, i as int, xs, jw) ==> elems@.len() < xs.len() && (cur as int) < jw
                    && elems_text(xs.skip(elems@.len() as int)) + seq![']'] == s@.subrange(
                    cur as int,
                    jw,
                ),
        decreases s@.len() - cur,
    {
        match read_value(s, cur) {
            None => {
                proof {
                    assert forall|w: ExternalValue, jw: int|
                        !value_at(s@, i as int, w, jw) by {
                        if value_at(s@, i as int, w, jw) {
                            lemma_value_at_array(s@, i as int, w, jw);
                            let xs = w->Array_0@;
                            let m = elems@.len() as int;
                            lemma_elems_peel(s@, cur as int, xs.skip(m), jw);
                            let x0 = xs.skip(m)[0];
                            let b = cur + ser(x0).len();
                            if xs.skip(m).len() == 1 {
                                assert(s@[b] == ']');
                            } else {
                                assert(s@[b] == ',');
                            }
                            assert(!is_num_char(s@[b]));
                            assert(value_at(s@, cur as int, x0, b));
                        }
                    }
                }
                return None;
            },
            Some((v, j)) => {
                let ghost pre = elems@;
                proof {
                    if elems@.len() == 0 {
                        assert(elems@.push(v) =~= seq![v]);
                        assert(elems_text(seq![v]) == ser(v));
                        assert(s@.subrange(i as int + 1, j as int) =~= s@.subrange(
                            cur as int,
                            j as int,
                        ));
                    } else {
                        lemma_elems_snoc(elems@, v);
                        assert(elems_text(seq![v]) == ser(v));
                        assert(s@.subrange(i as int + 1, j as int) =~= s@.subrange(
                            i as int + 1,
                            cur as int,
                        ) + s@.subrange(cur as int, j as int));
                        assert((elems_text(elems@) + seq![',']) + ser(v) =~= elems_text(elems@)
                            + seq![','] + elems_text(seq![v]));
                    }
                    assert(s@.subrange(i as int + 1, j as int) == elems_text(elems@.push(v)));
                    assert forall|xs: Seq<ExternalValue>, jw: int|
                        arr_at(s@, i as int, xs, jw) implies {
                        let m = pre.len() as int;
                        &&& (j as int) < jw
                        &&& j as int == cur + ser(xs.skip(m)[0]).len()
                        &&& (xs.skip(m).len() == 1 ==> s@[j as int] == ']' && j == jw - 1)
                        &&& (xs.skip(m).len() > 1 ==> s@[j as int] == ',' && elems_text(
                            xs.skip(m + 1),
                        ) + seq![']'] == s@.subrange(j as int + 1, jw))
                    } by {
                        let m = pre.len() as int;
                        lemma_elems_peel(s@, cur as int, xs.skip(m), jw);
                        let x0 = xs.skip(m)[0];
                        let b = cur + ser(x0).len();
                        lemma_align(v, x0, s@, cur as int, j as int, b);
                        assert(xs.skip(m).drop_first() =~= xs.skip(m + 1));
                    }
                }
                elems.push(v);
                if j < s.len() && s[j] == ',' {
                    proof {
                        assert(s@.subrange(i as int + 1, j as int + 1) =~= s@.subrange(
                            i as int + 1,
                            j as int,
                        ).push(s@[j as int]));
                        assert forall|xs: Seq<ExternalValue>, jw: int|
                            arr_at(s@, i as int, xs, jw) implies elems@.len() < xs.len()
                            && elems_text(xs.skip(elems@.len() as int)) + seq![']'] == s@.subrange(
                            j as int + 1,
                            jw,
                        ) by {
                            let m = pre.len() as int;
                            if xs.skip(m).len() == 1 {
                                assert(s@[j as int] == ']');
                            }
                            assert((j as int) < jw);
                            assert((elems_text(xs.skip(m + 1)) + seq![']']).len() == jw - (
                            j as int) - 1);
                            assert(elems@.len() as int == m + 1);
                        }
                    }
                    cur = j + 1;
                } else if j < s.len() && s[j] == ']' {
                    proof {
                        assert(ser(ExternalValue::Array(elems)) =~= s@.subrange(
                            i as int,
                            j as int + 1,
                        ));
                    }
                    return Some((ExternalValue::Array(elems), j + 1));
                } else {
                    proof {
                        assert forall|w: ExternalValue, jw: int|
                            !value_at(s@, i as int, w, jw) by {
                            if value_at(s@, i as int, w, jw) {
                                lemma_value_at_array(s@, i as int, w, jw);
                                let xs = w->Array_0@;
                                let m = pre.len() as int;
                                if xs.skip(m).len() == 1 {
                                    assert(s@[j as int] == ']');
                                    assert(j as int == jw - 1);
                                    assert((j as int) < s@.len());
                                } else {
                                    assert(s@[j as int] == ',');
                                    assert((elems_text(xs.skip(m + 1)) + seq![']']).len() == jw - (
                                    j as int) - 1);
                                    assert((j as int) < s@.len());
                                }
                            }
                        }
                    }
                    return None;
                }
            },
        }
    }
}

/// What it means for a well-formed object to stand at `i` and end at `jw`.
spec fn obj_at(s: Seq<char>, i: int, ps: Seq<(String, ExternalValue)>, jw: int) -> bool {
    &&& forall|k: int| 0 <= k < ps.len() ==> wf_external((#[trigger] ps[k]).1)
    &&& 0 <= i < jw <= s.len()
    &&& seq!['{'] + pairs_text(ps) + seq!['}'] == s.subrange(i, jw)
    &&& (jw == s.len() || !is_num_char(s[jw]))
}

/// A well-formed value starting with the opening brace is an object whose
/// pair list stands right after it.
proof fn lemma_value_at_object(s: Seq<char>, i: int, w: ExternalValue, jw: int)
    requires
        value_at(s, i, w, jw),
        s[i] == '{',
    ensures
        w is Object,
        obj_at(s, i, w->Object_0@, jw),
{
    lemma_head_class(w);
    assert(ser(w)[0] == s.subrange(i, jw)[0]);
    assert(s.subrange(i, jw)[0] == s[i]);
}

/// Reads a braced, comma-separated object of quoted keys and values.  It
/// succeeds wherever a well-formed value stands.
#[verifier::loop_isolation(false)]
#[verifier::rlimit(100)]
fn read_object(s: &Vec<char>, i: usize) -> (r: Option<(ExternalValue, usize)>)
    requires
        i < s@.len(),
        s@[i as int] == '{',
    ensures
        r matches Some((v, j)) ==> i < j <= s@.len() && wf_external(v) && v is Object && ser(v)
            == s@.subrange(i as int, j as int),
        forall|w: ExternalValue, jw: int| value_at(s@, i as int, w, jw) ==> r is Some,
    decreases s@.len() - i, 0int,
{
    let n = s.len();
    let mut pairs: Vec<(String, ExternalValue)> = Vec::new();
    let mut cur: usize = i + 1;
    if cur < s.len() && s[cur] == '}' {
        proof {
            assert(ser(ExternalValue::Object(pairs)) =~= s@.subrange(i as int, cur as int + 1));
        }
        return Some((ExternalValue::Object(pairs), cur + 1));
    }
    proof {
        assert forall|ps: Seq<(String, ExternalValue)>, jw: int|
            obj_at(s@, i as int, ps, jw) implies ps.len() > 0 && (i as int + 1) < jw
            && pairs_text(ps.skip(0)) + seq!['}'] == s@.subrange(i as int + 1, jw) by {
            assert(ps.skip(0) =~= ps);
            assert(s@.subrange(i as int, jw) =~= seq!['{'] + s@.subrange(i as int + 1, jw));
            assert((seq!['{'] + (pairs_text(ps) + seq!['}'])) =~= (seq!['{'] + pairs_text(ps)
                + seq!['}']));
            lemma_chars_cancel(
                seq!['{'],
                pairs_text(ps) + seq!['}'],
                seq!['{'],
                s@.subrange(i as int + 1, jw),
            );
            assert((pairs_text(ps) + seq!['}']).len() == jw - i - 1);
            if ps.len() == 0 {
                assert((pairs_text(ps) + seq!['}']).len() == 1);
                assert(jw == i + 2);
                assert((pairs_text(ps) + seq!['}'])[0] == '}');
                assert(s@.subrange(i as int + 1, jw)[0] == s@[i as int + 1]);
            }
        }
    }
    loop
        invariant
            i < cur <= s@.len(),
            forall|q: int| 0 <= q < pairs@.len() ==> wf_external((#[trigger] pairs@[q]).1),
            if pairs@.len() == 0 {
                cur == i + 1
            } else {
                s@.subrange(i as int + 1, cur as int) == pairs_text(pairs@) + seq![',']
            },
            forall|ps: Seq<(String, ExternalValue)>, jw: int|
                obj_at(s@, i as int, ps, jw) ==> pairs@.len() < ps.len() && (cur as int) < jw
                    && pairs_text(ps.skip(pairs@.len() as int)) + seq!['}'] == s@.subrange(
                    cur as int,
                    jw,
                ),
        decreases s@.len() - cur,
    {
        if cur >= s.len() {
            proof {
                assert forall|w: ExternalValue, jw: int| !value_at(s@, i as int, w, jw) by {
                    if value_at(s@, i as int, w, jw) {
                        lemma_value_at_object(s@, i as int, w, jw);
                    }
                }
            }
            return None;
        }
        match read_string(s, cur) {
            None => {
                proof {
                    assert forall|w: ExternalValue, jw: int| !value_at(s@, i as int, w, jw) by {
                        if value_at(s@, i as int, w, jw) {
                            lemma_value_at_object(s@, i as int, w, jw);
                            let ps = w->Object_0@;
                            let m = pairs@.len() as int;
                            lemma_pairs_peel(s@, cur as int, ps.skip(m), jw);
                        }
                    }
                }
                return None;
            },
            Some((key, j1)) => {
                if j1 >= s.len() || s[j1] != ':' {
                    proof {
                        assert forall|w: ExternalValue, jw: int|
                            !value_at(s@, i as int, w, jw) by {
                            if value_at(s@, i as int, w, jw) {
                                lemma_value_at_object(s@, i as int, w, jw);
                                let ps = w->Object_0@;
                                let m = pairs@.len() as int;
                                lemma_pairs_peel(s@, cur as int, ps.skip(m), jw);
                                let k0 = ps.skip(m)[0].0;
                                let c1 = cur + str_text(k0@).len();
                                assert(str_text(k0@) =~= seq!['"'] + str_body(k0@) + seq!['"']);
                                assert(ser(ExternalValue::Str(k0)) == s@.subrange(cur as int, c1));
                                assert(ser(ExternalValue::Str(key)) == s@.subrange(
                                    cur as int,
                                    j1 as int,
                                ));
                                lemma_align(
                                    ExternalValue::Str(key),
                                    ExternalValue::Str(k0),
                                    s@,
                                    cur as int,
                                    j1 as int,
                                    c1,
                                );
                                assert(s@[j1 as int] == ':');
                                assert((j1 as int) < jw);
                            }
                        }
                    }
                    return None;
                }
                match read_value(s, j1 + 1) {
                    None => {
                        proof {
                            assert forall|w: ExternalValue, jw: int|
                                !value_at(s@, i as int, w, jw) by {
                                if value_at(s@, i as int, w, jw) {
                                    lemma_value_at_object(s@, i as int, w, jw);
                                    let ps = w->Object_0@;
                                    let m = pairs@.len() as int;
                                    lemma_pairs_peel(s@, cur as int, ps.skip(m), jw);
                                    let p0 = ps.skip(m)[0];
                                    let k0 = p0.0;
                                    let c1 = cur + str_text(k0@).len();
                                    let b2 = cur + pair_text(p0).len();
                                    assert(str_text(k0@) =~= seq!['"'] + str_body(k0@)
                                        + seq!['"']);
                                    assert(ser(ExternalValue::Str(k0)) == s@.subrange(
                                        cur as int,
                                        c1,
                                    ));
                                    assert(ser(ExternalValue::Str(key)) == s@.subrange(
                                        cur as int,
                                        j1 as int,
                                    ));
                                    lemma_align(
                                        ExternalValue::Str(key),
                                        ExternalValue::Str(k0),
                                        s@,
                                        cur as int,
                                        j1 as int,
                                        c1,
                                    );
                                    if ps.skip(m).len() == 1 {
                                        assert(s@[b2] == '}');
                                    } else {
                                        assert(s@[b2] == ',');
                                    }
                                    assert(!is_num_char(s@[b2]));
                                    assert(value_at(s@, j1 as int + 1, p0.1, b2));
                                }
                            }
                        }
                        return None;
                    },
                    Some((v, j2)) => {
                        let ghost pre = pairs@;
                        proof {
                            let p = (key, v);
                            assert(p.0 == key && p.1 == v);
                            assert(seq![s@[j1 as int]] =~= seq![':']);
                            assert(pair_text(p) == str_text(key@) + seq![':'] + ser(v));
                            assert(s@.subrange(cur as int, j2 as int) =~= s@.subrange(
                                cur as int,
                                j1 as int,
                            ) + seq![s@[j1 as int]] + s@.subrange(j1 as int + 1, j2 as int));
                            assert(s@.subrange(cur as int, j1 as int) + seq![s@[j1 as int]]
                                + s@.subrange(j1 as int + 1, j2 as int) == str_text(key@)
                                + seq![':'] + ser(v));
                            assert(s@.subrange(cur as int, j2 as int) == pair_text(p));
                            if pairs@.len() == 0 {
                                assert(pairs@.push(p) =~= seq![p]);
                                assert(pairs_text(seq![p]) == pair_text(p));
                                assert(s@.subrange(i as int + 1, j2 as int) =~= s@.subrange(
                                    cur as int,
                                    j2 as int,
                                ));
                            } else {
                                lemma_pairs_snoc(pairs@, p);
                                assert(pairs_text(seq![p]) == pair_text(p));
                                assert(s@.subrange(i as int + 1, j2 as int) =~= s@.subrange(
                                    i as int + 1,
                                    cur as int,
                                ) + s@.subrange(cur as int, j2 as int));
                                assert((pairs_text(pairs@) + seq![',']) + pair_text(p)
                                    =~= pairs_text(pairs@) + seq![','] + pairs_text(seq![p]));
                            }
                            assert(s@.subrange(i as int + 1, j2 as int) == pairs_text(
                                pairs@.push(p),
                            ));
                            assert forall|ps: Seq<(String, ExternalValue)>, jw: int|
                                obj_at(s@, i as int, ps, jw) implies {
                                let m = pre.len() as int;
                                &&& (j2 as int) < jw
                                &&& (ps.skip(m).len() == 1 ==> s@[j2 as int] == '}' && j2 == jw
                                    - 1)
                                &&& (ps.skip(m).len() > 1 ==> s@[j2 as int] == ','
                                    && pairs_text(ps.skip(m + 1)) + seq!['}'] == s@.subrange(
                                    j2 as int + 1,
                                    jw,
                                ))
                            } by {
                                let m = pre.len() as int;
                                lemma_pairs_peel(s@, cur as int, ps.skip(m), jw);
                                let p0 = ps.skip(m)[0];
                                let k0 = p0.0;
                                let c1 = cur + str_text(k0@).len();
                                let b2 = cur + pair_text(p0).len();
                                assert(str_text(k0@) =~= seq!['"'] + str_body(k0@) + seq!['"']);
                                assert(ser(ExternalValue::Str(k0)) == s@.subrange(cur as int, c1));
                                assert(ser(ExternalValue::Str(key)) == s@.subrange(
                                    cur as int,
                                    j1 as int,
                                ));
                                lemma_align(
                                    ExternalValue::Str(key),
                                    ExternalValue::Str(k0),
                                    s@,
                                    cur as int,
                                    j1 as int,
                                    c1,
                                );
                                if ps.skip(m).len() == 1 {
                                    assert(s@[b2] == '}');
                                } else {
                                    assert(s@[b2] == ',');
                                }
                                lemma_align(v, p0.1, s@, j1 as int + 1, j2 as int, b2);
                                assert(ps.skip(m).drop_first() =~= ps.skip(m + 1));
                            }
                        }
                        pairs.push((key, v));
                        if j2 < s.len() && s[j2] == ',' {
                            proof {
                                assert(s@.subrange(i as int + 1, j2 as int + 1) =~= s@.subrange(
                                    i as int + 1,
                                    j2 as int,
                                ).push(s@[j2 as int]));
                                assert forall|ps: Seq<(String, ExternalValue)>, jw: int|
                                    obj_at(s@, i as int, ps, jw) implies pairs@.len() < ps.len()
                                    && (j2 as int + 1) < jw && pairs_text(
                                    ps.skip(pairs@.len() as int),
                                ) + seq!['}'] == s@.subrange(j2 as int + 1, jw) by {
                                    let m = pre.len() as int;
                                    if ps.skip(m).len() == 1 {
                                        assert(s@[j2 as int] == '}');
                                    }
                                    assert((j2 as int) < jw);
                                    assert((pairs_text(ps.skip(m + 1)) + seq!['}']).len() == jw - (
                                    j2 as int) - 1);
                                    assert(pairs@.len() as int == m + 1);
                                }
                            }
                            cur = j2 + 1;
                        } else if j2 < s.len() && s[j2] == '}' {
                            proof {
                                assert(ser(ExternalValue::Object(pairs)) =~= s@.subrange(
                                    i as int,
                                    j2 as int + 1,
                                ));
                            }
                            return Some((ExternalValue::Object(pairs), j2 + 1));
                        } else {
                            proof {
                                assert forall|w: ExternalValue, jw: int|
                                    !value_at(s@, i as int, w, jw) by {
                                    if value_at(s@, i as int, w, jw) {
                                        lemma_value_at_object(s@, i as int, w, jw);
                                        let ps = w->Object_0@;
                                        let m = pre.len() as int;
                                        if ps.skip(m).len() == 1 {
                                            assert(s@[j2 as int] == '}');
                                            assert(j2 as int == jw - 1);
                                            assert((j2 as int) < s@.len());
                                        } else {
                                            assert(s@[j2 as int] == ',');
                                            assert((pairs_text(ps.skip(m + 1)) + seq!['}']).len()
                                                == jw - (j2 as int) - 1);
                                            assert((j2 as int) < s@.len());
                                        }
                                    }
                                }
                            }
                            return None;
                        }
                    },
                }
            },
        }
    }
}

/// Executable test for `wf_external`, for callers who build values by hand
/// and want the round-trip guarantees, which hold of well-formed values.
#[verifier::loop_isolation(false)]
pub fn is_wf(v: &ExternalValue) -> (r: bool)
    ensures
        r == wf_external(*v),
    decreases *v,
{
    match v {
        ExternalValue::Real(t) => is_real_text_exec(t.as_str()),
        ExternalValue::Array(xs) => {
            let mut k: usize = 0;
            while k < xs.len()
                invariant
                    k <= xs@.len(),
                    forall|j: int| 0 <= j < k ==> wf_external(#[trigger] xs@[j]),
                decreases xs@.len() - k,
            {
                proof {
                    assert(decreases_to!(*v => *xs));
                    assert(decreases_to!(*xs => xs@));
                    assert(decreases_to!(xs@ => xs@[k as int]));
                    assert(decreases_to!(*v => xs@[k as int]));
                }
                if !is_wf(&xs[k]) {
                    return false;
                }
                k += 1;
            }
            true
        },
        ExternalValue::Object(ps) => {
            let mut k: usize = 0;
            while k < ps.len()
                invariant
                    k <= ps@.len(),
                    forall|j: int| 0 <= j < k ==> wf_external(#[trigger] ps@[j].1),
                decreases ps@.len() - k,
            {
                proof {
                    assert(decreases_to!(*v => *ps));
                    assert(decreases_to!(*ps => ps@));
                    assert(decreases_to!(ps@ => ps@[k as int]));
                    assert(decreases_to!(ps@[k as int] => ps@[k as int].1));
                    assert(decreases_to!(*v => ps@[k as int].1));
                }
                if !is_wf(&ps[k].1) {
                    return false;
                }
                k += 1;
            }
            true
        },
        _ => true,
    }
}

/// Attempts to recover a value from text: returns the unique well-formed
/// value whose canonical text is exactly the input, if there is one.  Both
/// directions are proved: a recovered value serializes back to the input,
/// and failure means no well-formed value has this text.
pub fn parse_text(s: &str) -> (r: Option<ExternalValue>)
    ensures
        r matches Some(v) ==> wf_external(v) && ser(v) == s@,
        r is None ==> forall|w: ExternalValue| !(wf_external(w) && ser(w) == s@),
{
    let cs = chars_of(s);
    match read_value(&cs, 0) {
        Some((v, j)) => {
            if j == cs.len() {
                proof {
                    assert(cs@.subrange(0, cs@.len() as int) =~= cs@);
                }
                Some(v)
            } else {
                proof {
                    assert forall|w: ExternalValue| !(wf_external(w) && ser(w) == s@) by {
                        if wf_external(w) && ser(w) == s@ {
                            assert(cs@.subrange(0, cs@.len() as int) =~= cs@);
                            assert(value_at(cs@, 0, w, cs@.len() as int));
                            lemma_align(
                                v,
                                w,
                                cs@,
                                0,
                                j as int,
                                cs@.len() as int,
                            );
                        }
                    }
                }
                None
            }
        },
        None => {
            proof {
                assert forall|w: ExternalValue| !(wf_external(w) && ser(w) == s@) by {
                    if wf_external(w) && ser(w) == s@ {
                        assert(cs@.subrange(0, cs@.len() as int) =~= cs@);
                        assert(value_at(cs@, 0, w, cs@.len() as int));
                    }
                }
            }
            None
        },
    }
}

/// What it means for a well-formed value to stand at `i` and end at `jw`,
/// with any numeric token ended there.
spec fn value_at(s: Seq<char>, i: int, w: ExternalValue, jw: int) -> bool {
    &&& wf_external(w)
    &&& 0 <= i <= jw <= s.len()
    &&& ser(w) == s.subrange(i, jw)
    &&& (jw == s.len() || !is_num_char(s[jw]))
}

/// Peels the first element off a bracketed element list's remaining text:
/// its text is next, and a separator or the closer follows it.
proof fn lemma_elems_peel(s: Seq<char>, cur: int, l: Seq<ExternalValue>, jw: int)
    requires
        l.len() >= 1,
        forall|k: int| 0 <= k < l.len() ==> wf_external(#[trigger] l[k]),
        0 <= cur <= jw <= s.len(),
        elems_text(l) + seq![']'] == s.subrange(cur, jw),
    ensures
        cur + ser(l[0]).len() < jw,
        ser(l[0]) == s.subrange(cur, cur + ser(l[0]).len()),
        l.len() == 1 ==> s[cur + ser(l[0]).len()] == ']' && cur + ser(l[0]).len() == jw - 1,
        l.len() > 1 ==> s[cur + ser(l[0]).len()] == ',' && elems_text(l.drop_first()) + seq![']']
            == s.subrange(cur + ser(l[0]).len() + 1, jw),
{
    let e0 = ser(l[0]);
    let b = cur + e0.len();
    if l.len() == 1 {
        assert(elems_text(l) == e0);
        assert((e0 + seq![']']).len() == jw - cur);
        assert(b == jw - 1);
        assert forall|k: int| 0 <= k < e0.len() implies e0[k] == s.subrange(cur, b)[k] by {
            assert((e0 + seq![']'])[k] == e0[k]);
            assert(s.subrange(cur, jw)[k] == s.subrange(cur, b)[k]);
        }
        assert(e0 =~= s.subrange(cur, b));
        assert((e0 + seq![']'])[e0.len() as int] == ']');
        assert(s.subrange(cur, jw)[e0.len() as int] == s[b]);
    } else {
        assert(elems_text(l) == e0 + seq![','] + elems_text(l.drop_first()));
        assert(((e0 + seq![','] + elems_text(l.drop_first())) + seq![']']) =~= (e0 + (seq![',']
            + (elems_text(l.drop_first()) + seq![']']))));
        let rest = seq![','] + (elems_text(l.drop_first()) + seq![']']);
        assert(e0 + rest == s.subrange(cur, jw));
        assert((e0 + rest).len() == jw - cur);
        assert(b + 1 <= jw);
        assert(s.subrange(cur, jw) =~= s.subrange(cur, b) + s.subrange(b, jw));
        lemma_chars_split(e0, rest, s.subrange(cur, b), s.subrange(b, jw));
        assert(rest[0] == ',');
        assert(rest[0] == s.subrange(b, jw)[0]);
        assert(s.subrange(b, jw)[0] == s[b]);
        assert(s.subrange(b, jw) =~= seq![s[b]] + s.subrange(b + 1, jw));
        lemma_chars_split(
            seq![','],
            elems_text(l.drop_first()) + seq![']'],
            seq![s[b]],
            s.subrange(b + 1, jw),
        );
    }
}

/// The pair analogue of `lemma_elems_peel`: a quoted key, a colon, the
/// value's text, then a separator or the closer.
proof fn lemma_pairs_peel(s: Seq<char>, cur: int, l: Seq<(String, ExternalValue)>, jw: int)
    requires
        l.len() >= 1,
        forall|k: int| 0 <= k < l.len() ==> wf_external((#[trigger] l[k]).1),
        0 <= cur <= jw <= s.len(),
        pairs_text(l) + seq!['}'] == s.subrange(cur, jw),
    ensures
        cur + pair_text(l[0]).len() < jw,
        cur + str_text(l[0].0@).len() < jw,
        quoted_at(s, cur, l[0].0@, cur + str_text(l[0].0@).len()),
        s[cur + str_text(l[0].0@).len()] == ':',
        ser(l[0].1) == s.subrange(cur + str_text(l[0].0@).len() + 1, cur + pair_text(l[0]).len()),
        l.len() == 1 ==> s[cur + pair_text(l[0]).len()] == '}' && cur + pair_text(l[0]).len() == jw
            - 1,
        l.len() > 1 ==> s[cur + pair_text(l[0]).len()] == ',' && pairs_text(l.drop_first())
            + seq!['}'] == s.subrange(cur + pair_text(l[0]).len() + 1, jw),
{
    let kt = str_text(l[0].0@);
    let v0 = l[0].1;
    let pt = pair_text(l[0]);
    let b = cur + pt.len();
    let c1 = cur + kt.len();
    assert(pt == kt + seq![':'] + ser(v0));
    if l.len() == 1 {
        assert(pairs_text(l) == pt);
        assert((pt + seq!['}']).len() == jw - cur);
        assert(b == jw - 1);
        assert(s.subrange(cur, jw) =~= s.subrange(cur, b) + s.subrange(b, jw));
        lemma_chars_split(pt, seq!['}'], s.subrange(cur, b), s.subrange(b, jw));
        assert(seq!['}'][0] == s.subrange(b, jw)[0]);
        assert(s.subrange(b, jw)[0] == s[b]);
    } else {
        assert(pairs_text(l) == pt + seq![','] + pairs_text(l.drop_first()));
        assert(((pt + seq![','] + pairs_text(l.drop_first())) + seq!['}']) =~= (pt + (seq![',']
            + (pairs_text(l.drop_first()) + seq!['}']))));
        let rest = seq![','] + (pairs_text(l.drop_first()) + seq!['}']);
        assert(pt + rest == s.subrange(cur, jw));
        assert((pt + rest).len() == jw - cur);
        assert(b + 1 <= jw);
        assert(s.subrange(cur, jw) =~= s.subrange(cur, b) + s.subrange(b, jw));
        lemma_chars_split(pt, rest, s.subrange(cur, b), s.subrange(b, jw));
        assert(rest[0] == ',');
        assert(rest[0] == s.subrange(b, jw)[0]);
        assert(s.subrange(b, jw)[0] == s[b]);
        assert(s.subrange(b, jw) =~= seq![s[b]] + s.subrange(b + 1, jw));
        lemma_chars_split(
            seq![','],
            pairs_text(l.drop_first()) + seq!['}'],
            seq![s[b]],
            s.subrange(b + 1, jw),
        );
    }
    assert(pt == s.subrange(cur, b));
    assert((kt + seq![':'] + ser(v0)) =~= (kt + (seq![':'] + ser(v0))));
    assert(s.subrange(cur, b) =~= s.subrange(cur, c1) + s.subrange(c1, b));
    lemma_chars_split(kt, seq![':'] + ser(v0), s.subrange(cur, c1), s.subrange(c1, b));
    assert((seq![':'] + ser(v0))[0] == s.subrange(c1, b)[0]);
    assert(s.subrange(c1, b)[0] == s[c1]);
    assert(s.subrange(c1, b) =~= seq![s[c1]] + s.subrange(c1 + 1, b));
    lemma_chars_split(seq![':'], ser(v0), seq![s[c1]], s.subrange(c1 + 1, b));
    assert(kt =~= seq!['"'] + str_body(l[0].0@) + seq!['"']);
}

} // verus!

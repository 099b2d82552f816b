//! The exact wire form of head components, and verified writers for them.
//!
//! Serialization is specified byte-for-byte: a head value determines its
//! wire bytes exactly, which is what makes decode-then-encode reproduce the
//! original bytes when nothing was modified.
use vstd::prelude::*;

use crate::fields::{FieldModel, HeaderField, field_ok, fields_view, is_tchar, is_value_byte};
use crate::scan::{is_head_len, terminator_at};

verus! {

/// The two line-ending bytes CR LF.
pub open spec fn crlf() -> Seq<u8> {
    seq![13u8, 10u8]
}

/// `HTTP/1.<minor>` as wire bytes (meaningful for a one-digit minor).
pub open spec fn version_wire(minor: u8) -> Seq<u8> {
    seq![72u8, 84u8, 84u8, 80u8, 47u8, 49u8, 46u8, (48 + minor) as u8]
}

/// One header line: `Name: Value` followed by CR LF.
pub open spec fn field_wire(f: FieldModel) -> Seq<u8> {
    f.name + seq![58u8, 32u8] + f.value + crlf()
}

/// All header lines from index `i` on, in stored order.
pub open spec fn fields_wire(fs: Seq<FieldModel>, i: int) -> Seq<u8>
    decreases fs.len() - i,
{
    if i < 0 || i >= fs.len() {
        Seq::empty()
    } else {
        field_wire(fs[i]) + fields_wire(fs, i + 1)
    }
}

/// A status code as exactly three decimal digits (meaningful below 1000).
pub open spec fn status_wire(c: u16) -> Seq<u8> {
    seq![(48 + c / 100) as u8, (48 + (c / 10) % 10) as u8, (48 + c % 10) as u8]
}

/// In the serialized header block followed by the final blank line, the
/// terminator can only sit at the very end: every field line ends in one
/// CR LF and is otherwise free of CR and LF, so two line breaks never
/// touch before the final blank line.
proof fn lemma_fields_tail(fs: Seq<FieldModel>, i: int)
    requires
        0 <= i <= fs.len(),
        forall|j: int| i <= j < fs.len() ==> field_ok(#[trigger] fs[j]),
    ensures
        ({
            let t = fields_wire(fs, i) + crlf();
            &&& t.len() >= 2
            &&& (forall|j: int| #[trigger] terminator_at(t, j) ==> j == t.len() - 4)
            &&& (i < fs.len() ==> terminator_at(t, t.len() - 4))
            &&& (t[0] == 13u8 <==> i == fs.len())
            &&& t[0] != 10u8
        }),
    decreases fs.len() - i,
{
    let t = fields_wire(fs, i) + crlf();
    if i == fs.len() {
        assert(fields_wire(fs, i) =~= Seq::<u8>::empty());
        assert(t =~= crlf());
        assert forall|j: int| #[trigger] terminator_at(t, j) implies j == t.len() - 4 by {}
    } else {
        lemma_fields_tail(fs, i + 1);
        let f = fs[i];
        let w = field_wire(f);
        let t2 = fields_wire(fs, i + 1) + crlf();
        assert(field_ok(f));
        assert(t =~= w + t2);
        let nl = f.name.len() as int;
        let vl = f.value.len() as int;
        assert(w.len() == nl + 2 + vl + 2);
        assert(nl >= 1);
        assert forall|p: int| 0 <= p < w.len() - 2 implies (w[p] != 13u8 && w[p] != 10u8) by {
            if p < nl {
                assert(is_tchar(f.name[p]));
            } else if p >= nl + 2 {
                assert(is_value_byte(f.value[p - nl - 2]));
            }
        }
        assert(w[w.len() - 2] == 13u8 && w[w.len() - 1] == 10u8);
        assert forall|j: int| #[trigger] terminator_at(t, j) implies j == t.len() - 4 by {
            if j + 4 <= w.len() {
                assert(t[j] == w[j]);
                assert(false);
            } else if j < w.len() {
                assert(t[j] == w[j]);
                assert(j == w.len() - 2);
                assert(t[j + 2] == t2[0]);
                assert(t2[0] == 13u8);
                assert(i + 1 == fs.len());
                assert(fields_wire(fs, i + 1) =~= Seq::<u8>::empty());
                assert(t2 =~= crlf());
                assert(j == t.len() - 4);
            } else {
                assert(terminator_at(t2, j - w.len()));
                assert(j - w.len() == t2.len() - 4);
            }
        }
        if i + 1 == fs.len() {
            assert(fields_wire(fs, i + 1) =~= Seq::<u8>::empty());
            assert(t2 =~= crlf());
            assert(t[t.len() - 4] == w[w.len() - 2]);
            assert(t[t.len() - 3] == w[w.len() - 1]);
            assert(t[t.len() - 2] == t2[0] && t[t.len() - 1] == t2[1]);
            assert(terminator_at(t, t.len() - 4));
        } else {
            assert(terminator_at(t2, t2.len() - 4));
            assert(t[t.len() - 4] == t2[t2.len() - 4]);
            assert(t[t.len() - 3] == t2[t2.len() - 3]);
            assert(t[t.len() - 2] == t2[t2.len() - 2]);
            assert(t[t.len() - 1] == t2[t2.len() - 1]);
            assert(terminator_at(t, t.len() - 4));
        }
        assert(t[0] == w[0]);
        assert(w[0] != 13u8 && w[0] != 10u8);
    }
}

/// A serialized head is exactly one head on the wire: a start line free of
/// CR and LF, its line break, the header block, and the final blank line
/// hold exactly one terminator occurrence, ending at the last byte. A
/// decode of these bytes therefore consumes them all and no fewer.
pub proof fn lemma_head_wire(a: Seq<u8>, fs: Seq<FieldModel>)
    requires
        forall|p: int| 0 <= p < a.len() ==> (#[trigger] a[p]) != 13u8 && a[p] != 10u8,
        forall|j: int| 0 <= j < fs.len() ==> field_ok(#[trigger] fs[j]),
    ensures
        ({
            let s = a + crlf() + fields_wire(fs, 0) + crlf();
            is_head_len(s, s.len() as int)
        }),
{
    lemma_fields_tail(fs, 0);
    let t = fields_wire(fs, 0) + crlf();
    let s = a + crlf() + fields_wire(fs, 0) + crlf();
    let l = a.len() as int;
    assert(s =~= (a + crlf()) + t);
    assert forall|j: int| #[trigger] terminator_at(s, j) implies j == s.len() - 4 by {
        if j < l {
            assert(s[j] == a[j]);
            assert(false);
        } else if j == l {
            assert(s[l + 2] == t[0]);
            assert(t[0] == 13u8);
            assert(fields_wire(fs, 0) =~= Seq::<u8>::empty());
            assert(t.len() == 2);
        } else if j == l + 1 {
            assert(s[j] == t[j - l - 2 + 2]);
            assert(s[l + 1] == 10u8);
            assert(false);
        } else {
            assert(terminator_at(t, j - l - 2));
            assert(j - l - 2 == t.len() - 4);
        }
    }
    if fs.len() == 0 {
        assert(fields_wire(fs, 0) =~= Seq::<u8>::empty());
        assert(t =~= crlf());
        assert(s[s.len() - 4] == 13u8 && s[s.len() - 3] == 10u8);
        assert(s[s.len() - 2] == t[0] && s[s.len() - 1] == t[1]);
        assert(terminator_at(s, s.len() - 4));
    } else {
        assert(terminator_at(t, t.len() - 4));
        assert(s[s.len() - 4] == t[t.len() - 4]);
        assert(s[s.len() - 3] == t[t.len() - 3]);
        assert(s[s.len() - 2] == t[t.len() - 2]);
        assert(s[s.len() - 1] == t[t.len() - 1]);
        assert(terminator_at(s, s.len() - 4));
    }
}

/// A byte that occurs in neither prefix splits a concatenation uniquely.
pub(crate) proof fn lemma_sep_split(a1: Seq<u8>, r1: Seq<u8>, a2: Seq<u8>, r2: Seq<u8>, sep: u8)
    requires
        a1 + seq![sep] + r1 == a2 + seq![sep] + r2,
        forall|i: int| 0 <= i < a1.len() ==> (#[trigger] a1[i]) != sep,
        forall|i: int| 0 <= i < a2.len() ==> (#[trigger] a2[i]) != sep,
    ensures
        a1 == a2,
        r1 == r2,
{
    let s1 = a1 + seq![sep] + r1;
    let s2 = a2 + seq![sep] + r2;
    if a1.len() < a2.len() {
        assert(s1[a1.len() as int] == sep);
        assert(s2[a1.len() as int] == a2[a1.len() as int]);
        assert(false);
    }
    if a2.len() < a1.len() {
        assert(s2[a2.len() as int] == sep);
        assert(s1[a2.len() as int] == a1[a2.len() as int]);
        assert(false);
    }
    assert forall|i: int| 0 <= i < a1.len() implies a1[i] == a2[i] by {
        assert(s1[i] == a1[i]);
        assert(s2[i] == a2[i]);
    }
    assert(a1 =~= a2);
    assert(s1.len() == a1.len() + 1 + r1.len());
    assert(s2.len() == a2.len() + 1 + r2.len());
    assert(r1.len() == r2.len());
    assert forall|i: int| 0 <= i < r1.len() implies r1[i] == r2[i] by {
        assert((a1 + seq![sep]).len() == a1.len() + 1);
        assert((a2 + seq![sep]).len() == a2.len() + 1);
        assert(s1[a1.len() + 1 + i] == r1[i]);
        assert(s2[a2.len() + 1 + i] == r2[i]);
        assert(s1[a1.len() + 1 + i] == s2[a1.len() + 1 + i]);
    }
    assert(r1 =~= r2);
}

/// The header block determines the field list: equal serialized blocks come
/// from equal lists of well-formed fields.
#[verifier::rlimit(60)]
pub(crate) proof fn lemma_fields_tail_inj(f1: Seq<FieldModel>, i1: int, f2: Seq<FieldModel>, i2: int)
    requires
        0 <= i1 <= f1.len(),
        0 <= i2 <= f2.len(),
        forall|j: int| i1 <= j < f1.len() ==> field_ok(#[trigger] f1[j]),
        forall|j: int| i2 <= j < f2.len() ==> field_ok(#[trigger] f2[j]),
        fields_wire(f1, i1) + crlf() == fields_wire(f2, i2) + crlf(),
    ensures
        f1.skip(i1) == f2.skip(i2),
    decreases f1.len() - i1,
{
    let t1 = fields_wire(f1, i1) + crlf();
    let t2 = fields_wire(f2, i2) + crlf();
    if i1 == f1.len() {
        assert(fields_wire(f1, i1) =~= Seq::<u8>::empty());
        assert(t1.len() == 2);
        if i2 < f2.len() {
            assert(field_ok(f2[i2]));
            assert(field_wire(f2[i2]).len() >= 5);
            assert(t2.len() >= 5);
            assert(false);
        }
        assert(f1.skip(i1) =~= f2.skip(i2));
    } else {
        if i2 == f2.len() {
            assert(fields_wire(f2, i2) =~= Seq::<u8>::empty());
            assert(field_ok(f1[i1]));
            assert(field_wire(f1[i1]).len() >= 5);
            assert(false);
        }
        let g1 = f1[i1];
        let g2 = f2[i2];
        assert(field_ok(g1) && field_ok(g2));
        let tail1 = fields_wire(f1, i1 + 1) + crlf();
        let tail2 = fields_wire(f2, i2 + 1) + crlf();
        let u1 = seq![32u8] + g1.value + seq![13u8] + (seq![10u8] + tail1);
        let u2 = seq![32u8] + g2.value + seq![13u8] + (seq![10u8] + tail2);
        assert(t1 =~= g1.name + seq![58u8] + u1);
        assert(t2 =~= g2.name + seq![58u8] + u2);
        assert forall|i: int| 0 <= i < g1.name.len() implies (#[trigger] g1.name[i]) != 58u8 by {
            assert(is_tchar(g1.name[i]));
        }
        assert forall|i: int| 0 <= i < g2.name.len() implies (#[trigger] g2.name[i]) != 58u8 by {
            assert(is_tchar(g2.name[i]));
        }
        lemma_sep_split(g1.name, u1, g2.name, u2, 58u8);
        let p1 = g1.value + seq![13u8] + (seq![10u8] + tail1);
        let p2 = g2.value + seq![13u8] + (seq![10u8] + tail2);
        assert forall|i: int| 0 <= i < p1.len() implies p1[i] == p2[i] by {
            assert(u1[1 + i] == p1[i]);
            assert(u2[1 + i] == p2[i]);
        }
        assert(p1 =~= p2);
        assert forall|i: int| 0 <= i < g1.value.len() implies (#[trigger] g1.value[i]) != 13u8 by {
            assert(is_value_byte(g1.value[i]));
        }
        assert forall|i: int| 0 <= i < g2.value.len() implies (#[trigger] g2.value[i]) != 13u8 by {
            assert(is_value_byte(g2.value[i]));
        }
        lemma_sep_split(g1.value, seq![10u8] + tail1, g2.value, seq![10u8] + tail2, 13u8);
        assert forall|i: int| 0 <= i < tail1.len() implies tail1[i] == tail2[i] by {
            assert((seq![10u8] + tail1)[1 + i] == tail1[i]);
            assert((seq![10u8] + tail2)[1 + i] == tail2[i]);
        }
        assert(tail1 =~= tail2);
        lemma_fields_tail_inj(f1, i1 + 1, f2, i2 + 1);
        assert(g1 == g2);
        assert(f1.skip(i1 + 1) == f2.skip(i2 + 1));
        assert(f1.len() - i1 == f2.len() - i2);
        assert forall|k: int| 0 <= k < f1.skip(i1).len() implies f1.skip(i1)[k] == f2.skip(i2)[k]
            by {
            assert(f1.skip(i1)[k] == f1[i1 + k]);
            assert(f2.skip(i2)[k] == f2[i2 + k]);
            if k == 0 {
                assert(f1[i1] == g1 && f2[i2] == g2);
            } else {
                assert(f1.skip(i1 + 1)[k - 1] == f1[i1 + k]);
                assert(f2.skip(i2 + 1)[k - 1] == f2[i2 + k]);
                assert(f1.skip(i1 + 1)[k - 1] == f2.skip(i2 + 1)[k - 1]);
            }
        }
        assert(f1.skip(i1) =~= f2.skip(i2));
    }
}

/// The version bytes hold no CR and no LF.
pub proof fn lemma_version_wire_clean(minor: u8)
    requires
        minor <= 9,
    ensures
        forall|q: int|
            0 <= q < version_wire(minor).len() ==> (#[trigger] version_wire(minor)[q]) != 13u8
                && version_wire(minor)[q] != 10u8,
{
    let v = version_wire(minor);
    assert forall|q: int| 0 <= q < v.len() implies (#[trigger] v[q]) != 13u8 && v[q] != 10u8 by {
        assert(v[0] == 72u8 && v[1] == 84u8 && v[2] == 84u8 && v[3] == 80u8 && v[4] == 47u8
            && v[5] == 49u8 && v[6] == 46u8 && v[7] == (48 + minor) as u8);
    }
}

/// The three status digits hold no CR and no LF.
pub proof fn lemma_status_wire_clean(c: u16)
    requires
        c <= 999,
    ensures
        forall|q: int|
            0 <= q < status_wire(c).len() ==> (#[trigger] status_wire(c)[q]) != 13u8 && status_wire(
                c,
            )[q] != 10u8,
{
    let v = status_wire(c);
    assert forall|q: int| 0 <= q < v.len() implies (#[trigger] v[q]) != 13u8 && v[q] != 10u8 by {
        assert(48 <= v[0] <= 57 && 48 <= v[1] <= 57 && 48 <= v[2] <= 57);
    }
}

/// Append all bytes of `src` to `out`.
pub fn push_bytes(out: &mut Vec<u8>, src: &Vec<u8>)
    ensures
        final(out)@ == old(out)@ + src@,
{
    out.extend_from_slice(src.as_slice());
}

/// Append CR LF to `out`.
pub fn push_crlf(out: &mut Vec<u8>)
    ensures
        final(out)@ == old(out)@ + crlf(),
{
    out.push(13);
    out.push(10);
    proof {
        assert(out@ =~= old(out)@ + crlf());
    }
}

/// Append `HTTP/1.<minor>` to `out`.
pub fn push_version(out: &mut Vec<u8>, minor: u8)
    requires
        minor <= 9,
    ensures
        final(out)@ == old(out)@ + version_wire(minor),
{
    out.push(72);
    out.push(84);
    out.push(84);
    out.push(80);
    out.push(47);
    out.push(49);
    out.push(46);
    out.push(48 + minor);
    proof {
        assert(out@ =~= old(out)@ + version_wire(minor));
    }
}

/// Append the three digits of a status code to `out`.
pub fn push_status(out: &mut Vec<u8>, c: u16)
    requires
        c <= 999,
    ensures
        final(out)@ == old(out)@ + status_wire(c),
{
    out.push((48 + c / 100) as u8);
    out.push((48 + (c / 10) % 10) as u8);
    out.push((48 + c % 10) as u8);
    proof {
        assert(out@ =~= old(out)@ + status_wire(c));
    }
}

/// Append every header line, in stored order.
pub fn push_fields(out: &mut Vec<u8>, fields: &Vec<HeaderField>)
    ensures
        final(out)@ == old(out)@ + fields_wire(fields_view(fields@), 0),
{
    let ghost fv = fields_view(fields@);
    let mut i: usize = 0;
    while i < fields.len()
        invariant
            i <= fields@.len(),
            fv == fields_view(fields@),
            out@ + fields_wire(fv, i as int) == old(out)@ + fields_wire(fv, 0),
        decreases fields@.len() - i,
    {
        let ghost before = out@;
        let f = &fields[i];
        push_bytes(out, &f.name);
        out.push(58);
        out.push(32);
        push_bytes(out, &f.value);
        push_crlf(out);
        proof {
            assert(fv[i as int] == fields@[i as int]@);
            assert(out@ =~= before + field_wire(fv[i as int]));
            assert(fields_wire(fv, i as int) == field_wire(fv[i as int]) + fields_wire(
                fv,
                i as int + 1,
            ));
            assert(out@ + fields_wire(fv, i as int + 1) =~= before + fields_wire(fv, i as int));
        }
        i = i + 1;
    }
    proof {
        assert(fields_wire(fv, fields@.len() as int) =~= Seq::<u8>::empty());
        assert(out@ =~= out@ + fields_wire(fv, fields@.len() as int));
    }
}

} // verus!

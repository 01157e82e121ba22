//! Decoding of one measurement line: `CSI,i1,r1,i2,r2,...`.
//!
//! A line is a measurement line when its first bytes are `CSI`; the first
//! field is not read further. The fields after it are `(imaginary, real)`
//! pairs, one per subcarrier.
//!
//! The number syntax is not decided here: the caller parses each field into
//! a value of its choice (or `None` when the field is not a number), and
//! `select_pairs` keeps, in order, the pairs whose two fields both parsed.
//! A malformed field costs only its own pair; the rest of the line is kept.
use vstd::prelude::*;

verus! {

/// Byte that separates the fields of a line (`,`).
pub const DELIMITER: u8 = 44;

/// The bytes a measurement line starts with: `CSI`.
pub open spec fn marker() -> Seq<u8> {
    seq![67u8, 83u8, 73u8]
}

pub open spec fn has_marker(line: Seq<u8>) -> bool {
    line.len() >= 3 && line.subrange(0, 3) == marker()
}

/// The fields of `s`, cut at every delimiter byte. A line without any
/// delimiter is a single field; an empty line is one empty field.
pub open spec fn fields_of(s: Seq<u8>) -> Seq<Seq<u8>>
    decreases s.len(),
{
    if s.len() == 0 {
        seq![Seq::<u8>::empty()]
    } else {
        let prev = fields_of(s.drop_last());
        if s.last() == DELIMITER {
            prev.push(Seq::<u8>::empty())
        } else {
            prev.update(prev.len() - 1, prev.last().push(s.last()))
        }
    }
}

/// The data fields of a line: every field after the first, or `None`
/// when the line does not start with the marker.
pub open spec fn data_fields(line: Seq<u8>) -> Option<Seq<Seq<u8>>> {
    if has_marker(line) {
        Some(fields_of(line).drop_first())
    } else {
        None
    }
}

pub open spec fn views(v: Seq<Vec<u8>>) -> Seq<Seq<u8>> {
    v.map_values(|f: Vec<u8>| f@)
}

/// The pairs `(imaginary, real)` among the first `n` pairs of `v` whose two
/// fields both hold a value, in order.
pub open spec fn kept_pairs_upto<T>(v: Seq<Option<T>>, n: nat) -> Seq<(T, T)>
    decreases n,
{
    if n == 0 {
        Seq::empty()
    } else {
        let prev = kept_pairs_upto(v, (n - 1) as nat);
        let i = 2 * n - 2;
        if v[i] is Some && v[i + 1] is Some {
            prev.push((v[i]->0, v[i + 1]->0))
        } else {
            prev
        }
    }
}

/// The complete pairs of `v`; a trailing unpaired field is ignored.
pub open spec fn kept_pairs<T>(v: Seq<Option<T>>) -> Seq<(T, T)> {
    kept_pairs_upto(v, v.len() / 2)
}

pub open spec fn selected<T>(v: Seq<Option<T>>) -> Option<Seq<(T, T)>> {
    if kept_pairs(v).len() == 0 {
        None
    } else {
        Some(kept_pairs(v))
    }
}

proof fn lemma_fields_nonempty(s: Seq<u8>)
    ensures
        fields_of(s).len() >= 1,
    decreases s.len(),
{
    if s.len() > 0 {
        lemma_fields_nonempty(s.drop_last());
    }
}

/// Checks the marker and cuts the line into its data fields (the fields
/// after the first), unparsed and untrimmed.
pub fn split_fields(line: &[u8]) -> (r: Option<Vec<Vec<u8>>>)
    ensures
        r is None <==> !has_marker(line@),
        r matches Some(v) ==> data_fields(line@) == Some(views(v@)),
{
    if line.len() < 3 || line[0] != 67u8 || line[1] != 83u8 || line[2] != 73u8 {
        return None;
    }
    assert(line@.subrange(0, 3) =~= marker());
    let mut done: Vec<Vec<u8>> = Vec::new();
    let mut cur: Vec<u8> = Vec::new();
    let mut i: usize = 0;
    assert(line@.subrange(0, 0) =~= Seq::<u8>::empty());
    assert(views(done@).push(cur@) =~= fields_of(line@.subrange(0, 0)));
    while i < line.len()
        invariant
            i <= line@.len(),
            views(done@).push(cur@) == fields_of(line@.subrange(0, i as int)),
        decreases line.len() - i,
    {
        let b = line[i];
        let ghost before = line@.subrange(0, i as int);
        let ghost after = line@.subrange(0, i + 1);
        assert(after.drop_last() =~= before);
        assert(after.last() == b);
        proof {
            lemma_fields_nonempty(before);
        }
        if b == DELIMITER {
            done.push(cur);
            cur = Vec::new();
            assert(views(done@).push(cur@) =~= fields_of(after));
        } else {
            cur.push(b);
            assert(views(done@).push(cur@) =~= fields_of(after));
        }
        i = i + 1;
    }
    assert(line@.subrange(0, line@.len() as int) =~= line@);
    done.push(cur);
    let ghost all = views(done@);
    done.remove(0);
    assert(views(done@) =~= all.drop_first());
    Some(done)
}

/// Keeps, in order, the pairs `(imaginary, real)` of consecutive values whose
/// two members are present; `None` when no pair is kept.
pub fn select_pairs<T: Copy>(values: &Vec<Option<T>>) -> (r: Option<Vec<(T, T)>>)
    ensures
        r is None <==> selected(values@) is None,
        r matches Some(p) ==> selected(values@) == Some(p@),
{
    let mut out: Vec<(T, T)> = Vec::new();
    let n: usize = values.len();
    let npairs: usize = n / 2;
    let mut k: usize = 0;
    while k < npairs
        invariant
            n == values@.len(),
            npairs == n / 2,
            k <= npairs,
            out@ == kept_pairs_upto(values@, k as nat),
        decreases npairs - k,
    {
        assert(2 * k + 1 < n) by (nonlinear_arith)
            requires
                k < npairs,
                npairs == n / 2,
        ;
        let a = values[2 * k];
        let b = values[2 * k + 1];
        match (a, b) {
            (Some(x), Some(y)) => {
                out.push((x, y));
            },
            _ => {},
        }
        k = k + 1;
    }
    if out.len() == 0 {
        None
    } else {
        Some(out)
    }
}

/// The line that carries the data fields `fs`: each one preceded by a
/// delimiter.
pub open spec fn joined(fs: Seq<Seq<u8>>) -> Seq<u8>
    decreases fs.len(),
{
    if fs.len() == 0 {
        Seq::empty()
    } else {
        joined(fs.drop_last()) + seq![DELIMITER] + fs.last()
    }
}

pub open spec fn no_delimiter(f: Seq<u8>) -> bool {
    forall|j: int| 0 <= j < f.len() ==> f[j] != DELIMITER
}

proof fn lemma_fields_extend(s: Seq<u8>, t: Seq<u8>)
    requires
        no_delimiter(t),
    ensures
        fields_of(s + t) == fields_of(s).update(
            fields_of(s).len() - 1,
            fields_of(s).last() + t,
        ),
    decreases t.len(),
{
    lemma_fields_nonempty(s);
    if t.len() == 0 {
        assert(s + t =~= s);
        assert(fields_of(s).last() + t =~= fields_of(s).last());
        assert(fields_of(s).update(fields_of(s).len() - 1, fields_of(s).last()) =~= fields_of(s));
    } else {
        let t0 = t.drop_last();
        lemma_fields_extend(s, t0);
        assert((s + t).drop_last() =~= s + t0);
        assert((s + t).last() == t.last());
        assert(t[t.len() - 1] != DELIMITER);
        let f = fields_of(s);
        let prev = fields_of(s + t0);
        assert(prev.len() == f.len());
        assert(prev.last() == f.last() + t0);
        assert((f.last() + t0).push(t.last()) =~= f.last() + t);
        assert(fields_of(s + t) =~= fields_of(s).update(
            fields_of(s).len() - 1,
            fields_of(s).last() + t,
        ));
    }
}

proof fn lemma_fields_of_joined(m: Seq<u8>, fs: Seq<Seq<u8>>)
    requires
        no_delimiter(m),
        forall|i: int| 0 <= i < fs.len() ==> no_delimiter(#[trigger] fs[i]),
    ensures
        fields_of(m + joined(fs)) == seq![m] + fs,
    decreases fs.len(),
{
    if fs.len() == 0 {
        lemma_fields_extend(Seq::empty(), m);
        assert(Seq::<u8>::empty() + m =~= m);
        assert(m + joined(fs) =~= m);
        assert(fields_of(Seq::<u8>::empty()).update(0, m) =~= seq![m] + fs);
    } else {
        let prev = fs.drop_last();
        let f = fs.last();
        lemma_fields_of_joined(m, prev);
        let a = m + joined(prev);
        let b = a + seq![DELIMITER];
        assert(b.drop_last() =~= a);
        assert(b.last() == DELIMITER);
        assert(no_delimiter(f));
        lemma_fields_extend(b, f);
        assert(m + joined(fs) =~= b + f);
        assert(Seq::<u8>::empty() + f =~= f);
        assert(fields_of(b) =~= (seq![m] + prev).push(Seq::empty()));
        assert(fields_of(b + f) =~= seq![m] + fs);
    }
}

/// A line made of the marker followed by delimiter-free data fields, each
/// after a delimiter, is decoded back into exactly those fields.
pub proof fn lemma_line_fields_round_trip(fs: Seq<Seq<u8>>)
    requires
        forall|i: int| 0 <= i < fs.len() ==> no_delimiter(#[trigger] fs[i]),
    ensures
        data_fields(marker() + joined(fs)) == Some(fs),
{
    let line = marker() + joined(fs);
    assert(no_delimiter(marker()));
    lemma_fields_of_joined(marker(), fs);
    assert(line.subrange(0, 3) =~= marker());
    assert((seq![marker()] + fs).drop_first() =~= fs);
}

/// When every field holds a value, the `N` complete pairs are all kept, the
/// `k`-th being `(imaginary, real)` from fields `2k` and `2k + 1`.
pub proof fn lemma_all_pairs_kept<T>(v: Seq<Option<T>>)
    requires
        forall|i: int| 0 <= i < v.len() ==> (#[trigger] v[i]) is Some,
    ensures
        kept_pairs(v).len() == v.len() / 2,
        forall|k: int|
            0 <= k < v.len() / 2 ==> #[trigger] kept_pairs(v)[k] == (v[2 * k]->0, v[2 * k + 1]->0),
{
    lemma_all_pairs_kept_upto(v, v.len() / 2);
}

proof fn lemma_all_pairs_kept_upto<T>(v: Seq<Option<T>>, n: nat)
    requires
        2 * n <= v.len(),
        forall|i: int| 0 <= i < v.len() ==> (#[trigger] v[i]) is Some,
    ensures
        kept_pairs_upto(v, n).len() == n,
        forall|k: int|
            0 <= k < n ==> #[trigger] kept_pairs_upto(v, n)[k] == (v[2 * k]->0, v[2 * k + 1]->0),
    decreases n,
{
    if n > 0 {
        lemma_all_pairs_kept_upto(v, (n - 1) as nat);
        let i = 2 * n - 2;
        assert(v[i] is Some && v[i + 1] is Some);
    }
}

} // verus!

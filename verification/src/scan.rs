//! Per-system accumulation of a multi-part visibility report. Each system
//! keeps one slot per declared part of the current cycle; a part writes its
//! slot, a repeated part index or a changed part count starts a new cycle
//! and discards that system's accumulated entries, and an identifier
//! reported again within a cycle overwrites its earlier entry.
use vstd::prelude::*;
use crate::types::Satellite;

verus! {

/// One system's in-progress visibility cycle: one slot per declared part.
pub struct SystemScan {
    pub parts: Vec<Option<Vec<Satellite>>>,
}

/// The slots as mathematical sequences.
pub open spec fn scan_view(parts: Seq<Option<Vec<Satellite>>>) -> Seq<Option<Seq<Satellite>>> {
    parts.map_values(
        |o: Option<Vec<Satellite>>|
            match o {
                Some(v) => Some(v@),
                None => None,
            },
    )
}

pub open spec fn has_prn(es: Seq<Satellite>, p: u32) -> bool {
    exists|i: int| 0 <= i < es.len() && es[i].prn == p
}

/// All entries of `v` except those with identifier `p`.
pub open spec fn sats_except(v: Seq<Satellite>, p: u32) -> Seq<Satellite> {
    v.filter(|s: Satellite| s.prn != p)
}

/// All entries of `v` whose identifiers do not occur in `es`.
pub open spec fn strip_prns(v: Seq<Satellite>, es: Seq<Satellite>) -> Seq<Satellite> {
    v.filter(|s: Satellite| !has_prn(es, s.prn))
}

/// Keeps only the last entry for each identifier, in order of last report.
pub open spec fn dedup_keep_last(es: Seq<Satellite>) -> Seq<Satellite>
    decreases es.len(),
{
    if es.len() == 0 {
        es
    } else {
        sats_except(dedup_keep_last(es.drop_last()), es.last().prn).push(es.last())
    }
}

/// The merge of one part into one system's scan: a changed part count or a
/// repeated part index discards the cycle in progress; the part's entries
/// fill their slot, and their identifiers supersede any entry another slot
/// of the same cycle holds for them.
pub open spec fn spec_merge_part(
    scan: Seq<Option<Seq<Satellite>>>,
    total: int,
    part: int,
    es: Seq<Satellite>,
) -> Seq<Option<Seq<Satellite>>> {
    let base = if scan.len() != total || scan[part - 1] is Some {
        Seq::new(total as nat, |j: int| None::<Seq<Satellite>>)
    } else {
        scan
    };
    Seq::new(
        total as nat,
        |j: int|
            if j == part - 1 {
                Some(dedup_keep_last(es))
            } else {
                match base[j] {
                    Some(v) => Some(strip_prns(v, es)),
                    None => None::<Seq<Satellite>>,
                }
            },
    )
}

/// The satellites a scan shows, slot by slot in part order.
pub open spec fn slot_sats(scan: Seq<Option<Seq<Satellite>>>) -> Seq<Satellite>
    decreases scan.len(),
{
    if scan.len() == 0 {
        Seq::empty()
    } else {
        slot_sats(scan.drop_last()) + (match scan.last() {
            Some(v) => v,
            None => Seq::empty(),
        })
    }
}

/// Whether `r` holds the entry of `v` for identifier `p`.
fn contains_prn(v: &Vec<Satellite>, p: u32) -> (r: bool)
    ensures
        r == has_prn(v@, p),
{
    let mut i: usize = 0;
    while i < v.len()
        invariant
            i <= v@.len(),
            forall|j: int| 0 <= j < i ==> v@[j].prn != p,
        decreases v@.len() - i,
    {
        if v[i].prn == p {
            return true;
        }
        i = i + 1;
    }
    false
}

fn remove_prn(v: &Vec<Satellite>, p: u32) -> (r: Vec<Satellite>)
    ensures
        r@ == sats_except(v@, p),
{
    let mut r: Vec<Satellite> = Vec::new();
    let mut i: usize = 0;
    while i < v.len()
        invariant
            i <= v@.len(),
            r@ == sats_except(v@.subrange(0, i as int), p),
        decreases v@.len() - i,
    {
        proof {
            reveal(Seq::filter);
            assert(v@.subrange(0, i + 1 as int).drop_last() =~= v@.subrange(0, i as int));
            assert(v@.subrange(0, i + 1 as int).last() == v@[i as int]);
        }
        if v[i].prn != p {
            r.push(v[i]);
        }
        i = i + 1;
    }
    assert(v@.subrange(0, v@.len() as int) =~= v@);
    r
}

fn strip_sats(v: &Vec<Satellite>, es: &Vec<Satellite>) -> (r: Vec<Satellite>)
    ensures
        r@ == strip_prns(v@, es@),
{
    let mut r: Vec<Satellite> = Vec::new();
    let mut i: usize = 0;
    while i < v.len()
        invariant
            i <= v@.len(),
            r@ == strip_prns(v@.subrange(0, i as int), es@),
        decreases v@.len() - i,
    {
        proof {
            reveal(Seq::filter);
            assert(v@.subrange(0, i + 1 as int).drop_last() =~= v@.subrange(0, i as int));
            assert(v@.subrange(0, i + 1 as int).last() == v@[i as int]);
        }
        if !contains_prn(es, v[i].prn) {
            r.push(v[i]);
        }
        i = i + 1;
    }
    assert(v@.subrange(0, v@.len() as int) =~= v@);
    r
}

fn dedup_sats(es: &Vec<Satellite>) -> (r: Vec<Satellite>)
    ensures
        r@ == dedup_keep_last(es@),
{
    let mut r: Vec<Satellite> = Vec::new();
    let mut i: usize = 0;
    while i < es.len()
        invariant
            i <= es@.len(),
            r@ == dedup_keep_last(es@.subrange(0, i as int)),
        decreases es@.len() - i,
    {
        proof {
            assert(es@.subrange(0, i + 1 as int).drop_last() =~= es@.subrange(0, i as int));
            assert(es@.subrange(0, i + 1 as int).last() == es@[i as int]);
        }
        let r2 = remove_prn(&r, es[i].prn);
        r = r2;
        r.push(es[i]);
        i = i + 1;
    }
    assert(es@.subrange(0, es@.len() as int) =~= es@);
    r
}

fn copy_sats(v: &Vec<Satellite>) -> (r: Vec<Satellite>)
    ensures
        r@ == v@,
{
    let mut r: Vec<Satellite> = Vec::new();
    let mut i: usize = 0;
    while i < v.len()
        invariant
            i <= v@.len(),
            r@ == v@.subrange(0, i as int),
        decreases v@.len() - i,
    {
        r.push(v[i]);
        assert(r@ =~= v@.subrange(0, i + 1 as int));
        i = i + 1;
    }
    assert(v@.subrange(0, v@.len() as int) =~= v@);
    r
}

impl SystemScan {
    /// A scan with no cycle in progress.
    pub fn empty() -> (r: SystemScan)
        ensures
            r.parts@.len() == 0,
    {
        SystemScan { parts: Vec::new() }
    }

    /// Folds one part into this system's scan, mirroring `spec_merge_part`.
    pub fn merge_part(&mut self, total: u32, part: u32, es: &Vec<Satellite>)
        requires
            1 <= part <= total,
        ensures
            scan_view(final(self).parts@) == spec_merge_part(
                scan_view(old(self).parts@),
                total as int,
                part as int,
                es@,
            ),
    {
        let ghost old_view = scan_view(self.parts@);
        let ghost m = spec_merge_part(old_view, total as int, part as int, es@);
        let t = total as usize;
        let p = (part - 1) as usize;
        let reset: bool = if self.parts.len() != t {
            true
        } else {
            self.parts[p].is_some()
        };
        let dd = dedup_sats(es);
        let mut out: Vec<Option<Vec<Satellite>>> = Vec::new();
        let mut j: usize = 0;
        while j < t
            invariant
                j <= t,
                t == total as int,
                p == part - 1,
                1 <= part <= total,
                out@.len() == j,
                dd@ == dedup_keep_last(es@),
                old_view == scan_view(self.parts@),
                m == spec_merge_part(old_view, total as int, part as int, es@),
                reset == (old_view.len() != total as int || old_view[part - 1] is Some),
                forall|k: int| 0 <= k < j ==> scan_view(out@)[k] == m[k],
            decreases t - j,
        {
            if j == p {
                out.push(Some(copy_sats(&dd)));
            } else if reset {
                out.push(None);
            } else {
                match &self.parts[j] {
                    None => out.push(None),
                    Some(v) => {
                        let stripped = strip_sats(v, es);
                        out.push(Some(stripped));
                    },
                }
            }
            j = j + 1;
        }
        self.parts = out;
        assert(scan_view(self.parts@) =~= m);
    }
}

/// Appends the satellites a scan shows, slot by slot, to `out`.
pub fn append_scan(out: &mut Vec<Satellite>, scan: &SystemScan)
    ensures
        final(out)@ == old(out)@ + slot_sats(scan_view(scan.parts@)),
{
    let ghost base = out@;
    let mut j: usize = 0;
    while j < scan.parts.len()
        invariant
            j <= scan.parts@.len(),
            out@ == base + slot_sats(scan_view(scan.parts@).subrange(0, j as int)),
        decreases scan.parts@.len() - j,
    {
        proof {
            let sv = scan_view(scan.parts@);
            assert(sv.subrange(0, j + 1 as int).drop_last() =~= sv.subrange(0, j as int));
            assert(sv.subrange(0, j + 1 as int).last() == sv[j as int]);
        }
        match &scan.parts[j] {
            None => {
                assert(out@ =~= base + slot_sats(
                    scan_view(scan.parts@).subrange(0, j + 1 as int),
                ));
            },
            Some(v) => {
                let mut k: usize = 0;
                while k < v.len()
                    invariant
                        k <= v@.len(),
                        scan_view(scan.parts@)[j as int] == Some(v@),
                        j < scan.parts@.len(),
                        out@ == base + slot_sats(scan_view(scan.parts@).subrange(0, j as int))
                            + v@.subrange(0, k as int),
                    decreases v@.len() - k,
                {
                    out.push(v[k]);
                    assert(out@ =~= base + slot_sats(
                        scan_view(scan.parts@).subrange(0, j as int),
                    ) + v@.subrange(0, k + 1 as int));
                    k = k + 1;
                }
                proof {
                    let sv = scan_view(scan.parts@);
                    assert(sv.subrange(0, j + 1 as int).drop_last() =~= sv.subrange(0, j as int));
                    assert(sv.subrange(0, j + 1 as int).last() == sv[j as int]);
                    assert(v@.subrange(0, v@.len() as int) =~= v@);
                    assert(out@ =~= base + slot_sats(sv.subrange(0, j + 1 as int)));
                }
            },
        }
        j = j + 1;
    }
    proof {
        assert(scan_view(scan.parts@).subrange(0, scan.parts@.len() as int) =~= scan_view(
            scan.parts@,
        ));
    }
}

/// Entries all carry different identifiers.
pub open spec fn distinct_prns(es: Seq<Satellite>) -> bool {
    forall|i: int, j: int| 0 <= i < j < es.len() ==> es[i].prn != es[j].prn
}

/// No identifier of `a` occurs in `b`.
pub open spec fn disjoint_prns(a: Seq<Satellite>, b: Seq<Satellite>) -> bool {
    forall|i: int| 0 <= i < a.len() ==> !has_prn(b, #[trigger] a[i].prn)
}

proof fn lemma_sats_except_id(v: Seq<Satellite>, p: u32)
    requires
        !has_prn(v, p),
    ensures
        sats_except(v, p) == v,
    decreases v.len(),
{
    reveal(Seq::filter);
    if v.len() > 0 {
        assert(!has_prn(v.drop_last(), p)) by {
            assert(forall|i: int|
                0 <= i < v.len() - 1 ==> v.drop_last()[i] == #[trigger] v[i]);
        }
        lemma_sats_except_id(v.drop_last(), p);
        assert(v[v.len() - 1].prn != p);
        assert(sats_except(v, p) =~= v);
    }
}

proof fn lemma_strip_id(v: Seq<Satellite>, es: Seq<Satellite>)
    requires
        disjoint_prns(v, es),
    ensures
        strip_prns(v, es) == v,
    decreases v.len(),
{
    reveal(Seq::filter);
    if v.len() > 0 {
        assert(disjoint_prns(v.drop_last(), es)) by {
            assert(forall|i: int|
                0 <= i < v.len() - 1 ==> v.drop_last()[i] == #[trigger] v[i]);
        }
        lemma_strip_id(v.drop_last(), es);
        assert(!has_prn(es, v[v.len() - 1].prn));
        assert(strip_prns(v, es) =~= v);
    }
}

proof fn lemma_dedup_id(es: Seq<Satellite>)
    requires
        distinct_prns(es),
    ensures
        dedup_keep_last(es) == es,
    decreases es.len(),
{
    if es.len() > 0 {
        let d = es.drop_last();
        assert(distinct_prns(d)) by {
            assert(forall|i: int| 0 <= i < es.len() - 1 ==> d[i] == #[trigger] es[i]);
        }
        lemma_dedup_id(d);
        assert(!has_prn(d, es.last().prn)) by {
            assert(forall|i: int| 0 <= i < d.len() ==> d[i] == #[trigger] es[i]);
        }
        lemma_sats_except_id(d, es.last().prn);
        assert(dedup_keep_last(es) =~= es);
    }
}

/// One order of applying three whole-cycle parts, described slot by slot.
proof fn lemma_merge_three(
    scan0: Seq<Option<Seq<Satellite>>>,
    total: int,
    pa: int,
    pb: int,
    pc: int,
    ea: Seq<Satellite>,
    eb: Seq<Satellite>,
    ec: Seq<Satellite>,
)
    requires
        scan0.len() != total,
        1 <= pa <= total,
        1 <= pb <= total,
        1 <= pc <= total,
        pa != pb,
        pa != pc,
        pb != pc,
        distinct_prns(ea),
        distinct_prns(eb),
        distinct_prns(ec),
        disjoint_prns(ea, eb),
        disjoint_prns(ea, ec),
        disjoint_prns(eb, ec),
    ensures
        ({
            let r = spec_merge_part(
                spec_merge_part(spec_merge_part(scan0, total, pa, ea), total, pb, eb),
                total,
                pc,
                ec,
            );
            r.len() == total && forall|j: int|
                0 <= j < total ==> r[j] == (if j == pa - 1 {
                    Some(ea)
                } else if j == pb - 1 {
                    Some(eb)
                } else if j == pc - 1 {
                    Some(ec)
                } else {
                    None::<Seq<Satellite>>
                })
        }),
{
    lemma_dedup_id(ea);
    lemma_dedup_id(eb);
    lemma_dedup_id(ec);
    lemma_strip_id(ea, eb);
    lemma_strip_id(ea, ec);
    lemma_strip_id(eb, ec);
    let m1 = spec_merge_part(scan0, total, pa, ea);
    let m2 = spec_merge_part(m1, total, pb, eb);
    let m3 = spec_merge_part(m2, total, pc, ec);
    assert(m1[pb - 1] is None);
    assert(m2[pc - 1] is None);
    assert(forall|j: int|
        0 <= j < total ==> m3[j] == (if j == pa - 1 {
            Some(ea)
        } else if j == pb - 1 {
            Some(eb)
        } else if j == pc - 1 {
            Some(ec)
        } else {
            None::<Seq<Satellite>>
        }));
}

/// The snapshot of a three-part cycle whose slots are exactly the three
/// parts' entries is those entries in part order; in particular its length
/// is the sum of the three parts' counts.
pub proof fn lemma_full_three_part_snapshot(
    e1: Seq<Satellite>,
    e2: Seq<Satellite>,
    e3: Seq<Satellite>,
)
    ensures
        ({
            let full = Seq::new(
                3,
                |j: int|
                    if j == 0 {
                        Some(e1)
                    } else if j == 1 {
                        Some(e2)
                    } else {
                        Some(e3)
                    },
            );
            slot_sats(full) == e1 + e2 + e3 && slot_sats(full).len() == e1.len() + e2.len()
                + e3.len()
        }),
{
    let full = Seq::new(
        3,
        |j: int|
            if j == 0 {
                Some(e1)
            } else if j == 1 {
                Some(e2)
            } else {
                Some(e3)
            },
    );
    assert(full.drop_last().drop_last().drop_last() =~= Seq::<Option<Seq<Satellite>>>::empty());
    assert(slot_sats(Seq::<Option<Seq<Satellite>>>::empty()) =~= Seq::<Satellite>::empty());
    assert(full.drop_last().drop_last().last() == Some(e1));
    assert(slot_sats(full.drop_last().drop_last()) =~= e1);
    assert(slot_sats(full.drop_last()) =~= e1 + e2);
    assert(slot_sats(full) =~= e1 + e2 + e3);
}

/// Visibility-merge order law: the three parts of one whole cycle, carrying
/// pairwise different identifiers, may be folded in during any of the six
/// arrival orders; every order leaves the same scan, the one whose slots
/// hold exactly the three parts' entries.
pub proof fn lemma_merge_order_irrelevant(
    scan0: Seq<Option<Seq<Satellite>>>,
    total: int,
    e1: Seq<Satellite>,
    e2: Seq<Satellite>,
    e3: Seq<Satellite>,
)
    requires
        scan0.len() != total,
        3 <= total,
        distinct_prns(e1),
        distinct_prns(e2),
        distinct_prns(e3),
        disjoint_prns(e1, e2),
        disjoint_prns(e2, e1),
        disjoint_prns(e1, e3),
        disjoint_prns(e3, e1),
        disjoint_prns(e2, e3),
        disjoint_prns(e3, e2),
    ensures
        ({
            let full = Seq::new(
                total as nat,
                |j: int|
                    if j == 0 {
                        Some(e1)
                    } else if j == 1 {
                        Some(e2)
                    } else if j == 2 {
                        Some(e3)
                    } else {
                        None::<Seq<Satellite>>
                    },
            );
            let r123 = spec_merge_part(
                spec_merge_part(spec_merge_part(scan0, total, 1, e1), total, 2, e2),
                total,
                3,
                e3,
            );
            let r132 = spec_merge_part(
                spec_merge_part(spec_merge_part(scan0, total, 1, e1), total, 3, e3),
                total,
                2,
                e2,
            );
            let r213 = spec_merge_part(
                spec_merge_part(spec_merge_part(scan0, total, 2, e2), total, 1, e1),
                total,
                3,
                e3,
            );
            let r231 = spec_merge_part(
                spec_merge_part(spec_merge_part(scan0, total, 2, e2), total, 3, e3),
                total,
                1,
                e1,
            );
            let r312 = spec_merge_part(
                spec_merge_part(spec_merge_part(scan0, total, 3, e3), total, 1, e1),
                total,
                2,
                e2,
            );
            let r321 = spec_merge_part(
                spec_merge_part(spec_merge_part(scan0, total, 3, e3), total, 2, e2),
                total,
                1,
                e1,
            );
            r123 == full && r132 == full && r213 == full && r231 == full && r312 == full && r321
                == full
        }),
{
    lemma_merge_three(scan0, total, 1, 2, 3, e1, e2, e3);
    lemma_merge_three(scan0, total, 1, 3, 2, e1, e3, e2);
    lemma_merge_three(scan0, total, 2, 1, 3, e2, e1, e3);
    lemma_merge_three(scan0, total, 2, 3, 1, e2, e3, e1);
    lemma_merge_three(scan0, total, 3, 1, 2, e3, e1, e2);
    lemma_merge_three(scan0, total, 3, 2, 1, e3, e2, e1);
    let full = Seq::new(
        total as nat,
        |j: int|
            if j == 0 {
                Some(e1)
            } else if j == 1 {
                Some(e2)
            } else if j == 2 {
                Some(e3)
            } else {
                None::<Seq<Satellite>>
            },
    );
    assert(spec_merge_part(
        spec_merge_part(spec_merge_part(scan0, total, 1, e1), total, 2, e2),
        total,
        3,
        e3,
    ) =~= full);
    assert(spec_merge_part(
        spec_merge_part(spec_merge_part(scan0, total, 1, e1), total, 3, e3),
        total,
        2,
        e2,
    ) =~= full);
    assert(spec_merge_part(
        spec_merge_part(spec_merge_part(scan0, total, 2, e2), total, 1, e1),
        total,
        3,
        e3,
    ) =~= full);
    assert(spec_merge_part(
        spec_merge_part(spec_merge_part(scan0, total, 2, e2), total, 3, e3),
        total,
        1,
        e1,
    ) =~= full);
    assert(spec_merge_part(
        spec_merge_part(spec_merge_part(scan0, total, 3, e3), total, 1, e1),
        total,
        2,
        e2,
    ) =~= full);
    assert(spec_merge_part(
        spec_merge_part(spec_merge_part(scan0, total, 3, e3), total, 2, e2),
        total,
        1,
        e1,
    ) =~= full);
}

} // verus!

//! The ring reconstructor's decisions: which rings are exteriors and which
//! are holes, which way each must be wound, which exterior each hole belongs
//! to, and the order in which the polygons are given.
//!
//! The geometry it rests on (the sign of each ring's area, and which ring
//! contains which) is measured by the caller and handed in.
use vstd::prelude::*;
use crate::errors::ErrorKind;

verus! {

/// One polygon: ring `exterior` with the rings `holes`, and whether each must
/// be reversed to get its winding right.
#[derive(Debug)]
pub struct PolygonPlan {
    pub exterior: usize,
    pub reverse_exterior: bool,
    pub holes: Vec<usize>,
    pub reverse_holes: Vec<bool>,
}

/// The rings, sorted by ascending absolute area, as the reconstructor sees
/// them: `enclosing[j][i]` tells whether ring `j` contains ring `i`, and
/// `area_sign[i]` is the sign of ring `i`'s signed area.
pub open spec fn rings_wf(enclosing: Seq<Seq<bool>>, area_sign: Seq<i8>) -> bool {
    &&& enclosing.len() == area_sign.len()
    &&& forall|j: int| 0 <= j < enclosing.len() ==> (#[trigger] enclosing[j]).len() == enclosing.len()
}

/// How many of the rings `0 .. upto` other than `i` contain ring `i`.
pub open spec fn enclosure_count(m: Seq<Seq<bool>>, i: int, upto: int) -> nat
    decreases upto,
{
    if upto <= 0 {
        0
    } else {
        enclosure_count(m, i, upto - 1) + if upto - 1 != i && m[upto - 1][i] {
            1nat
        } else {
            0nat
        }
    }
}

/// A ring inside an even number of other rings is an exterior; one inside an
/// odd number is a hole.
pub open spec fn is_exterior(m: Seq<Seq<bool>>, i: int) -> bool {
    enclosure_count(m, i, m.len() as int) % 2 == 0
}

/// The exteriors among the rings `0 .. upto`, in ring order.
pub open spec fn exteriors_upto(m: Seq<Seq<bool>>, upto: int) -> Seq<int>
    decreases upto,
{
    if upto <= 0 {
        Seq::empty()
    } else if is_exterior(m, upto - 1) {
        exteriors_upto(m, upto - 1).push(upto - 1)
    } else {
        exteriors_upto(m, upto - 1)
    }
}

pub open spec fn exteriors(m: Seq<Seq<bool>>) -> Seq<int> {
    exteriors_upto(m, m.len() as int)
}

/// The first position `k` at or after `from` in `ext` whose exterior
/// contains ring `h`.
pub open spec fn owner_from(m: Seq<Seq<bool>>, h: int, ext: Seq<int>, from: int) -> Option<int>
    decreases ext.len() - from,
{
    if from < 0 || from >= ext.len() {
        None
    } else if m[ext[from]][h] {
        Some(from)
    } else {
        owner_from(m, h, ext, from + 1)
    }
}

/// The position among the exteriors of the one hole `h` is attached to: the
/// first exterior, in ring order, that contains it.
pub open spec fn owner(m: Seq<Seq<bool>>, h: int) -> Option<int> {
    owner_from(m, h, exteriors(m), 0)
}

/// The holes among the rings `0 .. upto` attached to the exterior at
/// position `k`, in ring order.
pub open spec fn holes_upto(m: Seq<Seq<bool>>, k: int, upto: int) -> Seq<int>
    decreases upto,
{
    if upto <= 0 {
        Seq::empty()
    } else if !is_exterior(m, upto - 1) && owner(m, upto - 1) == Some(k) {
        holes_upto(m, k, upto - 1).push(upto - 1)
    } else {
        holes_upto(m, k, upto - 1)
    }
}

/// Whether ring `i` must be reversed: exteriors are wound to a positive
/// area, holes to a negative one.
pub open spec fn needs_reversal(sign: i8, exterior: bool, ensure_orientation: bool) -> bool {
    ensure_orientation && if exterior {
        !(sign > 0)
    } else {
        !(sign < 0)
    }
}

/// Every hole has an exterior that contains it.
pub open spec fn all_holes_owned(m: Seq<Seq<bool>>) -> bool {
    forall|h: int| 0 <= h < m.len() && !is_exterior(m, h) ==> (#[trigger] owner(m, h)) is Some
}

/// The plans the reconstructor owes: one polygon per exterior, the largest
/// exterior (the last in ring order) first.
pub open spec fn plans_match(
    plans: Seq<PolygonPlan>,
    m: Seq<Seq<bool>>,
    area_sign: Seq<i8>,
    ensure_orientation: bool,
) -> bool {
    let ext = exteriors(m);
    &&& plans.len() == ext.len()
    &&& forall|q: int|
        #![trigger plans[q]]
        0 <= q < plans.len() ==> {
            let k = ext.len() - 1 - q;
            &&& plans[q].exterior == ext[k]
            &&& plans[q].reverse_exterior == needs_reversal(
                area_sign[ext[k]],
                true,
                ensure_orientation,
            )
            &&& plans[q].holes@.map_values(|h: usize| h as int) == holes_upto(m, k, m.len() as int)
            &&& plans[q].reverse_holes@.len() == plans[q].holes@.len()
            &&& forall|t: int|
                0 <= t < plans[q].holes@.len() ==> #[trigger] plans[q].reverse_holes@[t]
                    == needs_reversal(area_sign[plans[q].holes@[t] as int], false, ensure_orientation)
        }
}


/// Ring `a` comes before ring `b` when sorted by key, ties kept in ring order.
pub open spec fn key_before(keys: Seq<u64>, a: int, b: int) -> bool {
    keys[a] < keys[b] || (keys[a] == keys[b] && a < b)
}

/// `order` lists distinct rings of `0 .. n`, each before the next.
pub open spec fn sorted_by_key(keys: Seq<u64>, order: Seq<usize>, n: int) -> bool {
    &&& forall|p: int| 0 <= p < order.len() ==> (#[trigger] order[p]) < n
    &&& forall|p: int, q: int|
        0 <= p < q < order.len() ==> key_before(keys, #[trigger] order[p] as int, #[trigger] order[q] as int)
}

/// The rings in ascending order of `keys` (the absolute areas), rings with
/// equal keys in ring order: every ring once, each before the
/// next.
pub fn sort_by_area(keys: &Vec<u64>) -> (order: Vec<usize>)
    ensures
        order@.len() == keys@.len(),
        sorted_by_key(keys@, order@, keys@.len() as int),
{
    let n = keys.len();
    let mut order: Vec<usize> = Vec::new();
    let mut i: usize = 0;
    while i < n
        invariant
            i <= n,
            n == keys@.len(),
            order@.len() == i,
            sorted_by_key(keys@, order@, i as int),
        decreases n - i,
    {
        let mut p: usize = 0;
        while p < order.len() && keys[order[p]] <= keys[i]
            invariant
                p <= order@.len(),
                i < n,
                n == keys@.len(),
                order@.len() == i,
                sorted_by_key(keys@, order@, i as int),
                forall|q: int| 0 <= q < p ==> keys@[#[trigger] order@[q] as int] <= keys@[i as int],
            decreases order@.len() - p,
        {
            p = p + 1;
        }
        let ghost before = order@;
        order.insert(p, i);
        proof {
            assert forall|a: int, b: int|
                0 <= a < b < order@.len() implies key_before(
                keys@,
                #[trigger] order@[a] as int,
                #[trigger] order@[b] as int,
            ) by {
                if b < p {
                    assert(order@[a] == before[a] && order@[b] == before[b]);
                } else if b == p {
                    assert(order@[a] == before[a]);
                } else if a < p {
                    assert(order@[a] == before[a] && order@[b] == before[b - 1]);
                    assert(keys@[before[p as int] as int] > keys@[i as int]);
                    assert(key_before(keys@, before[p as int] as int, before[b - 1] as int) || p == b - 1);
                } else if a == p {
                    assert(order@[b] == before[b - 1]);
                    assert(keys@[before[p as int] as int] > keys@[i as int]);
                    assert(key_before(keys@, before[p as int] as int, before[b - 1] as int) || p == b - 1);
                } else {
                    assert(order@[a] == before[a - 1] && order@[b] == before[b - 1]);
                }
            }
        }
        i = i + 1;
    }
    order
}

fn reversal(sign: i8, exterior: bool, ensure_orientation: bool) -> (r: bool)
    ensures
        r == needs_reversal(sign, exterior, ensure_orientation),
{
    ensure_orientation && if exterior {
        !(sign > 0)
    } else {
        !(sign < 0)
    }
}

proof fn lemma_owner_scan(m: Seq<Seq<bool>>, h: int, ext: Seq<int>, from: int)
    requires
        0 <= from <= ext.len(),
        forall|k: int| 0 <= k < from ==> !m[#[trigger] ext[k]][h],
    ensures
        owner_from(m, h, ext, 0) == owner_from(m, h, ext, from),
    decreases from,
{
    if from > 0 {
        lemma_owner_scan(m, h, ext, from - 1);
    }
}

/// Which rings are exteriors, in ring order, and for each ring whether it
/// is one.
fn classify_rings(enclosing: &Vec<Vec<bool>>) -> (r: (Vec<bool>, Vec<usize>))
    requires
        forall|j: int|
            0 <= j < enclosing@.len() ==> (#[trigger] enclosing@[j])@.len() == enclosing@.len(),
    ensures
        r.0@.len() == enclosing@.len(),
        forall|i: int| 0 <= i < enclosing@.len() ==> #[trigger] r.0@[i] == is_exterior(enclosing.deep_view(), i),
        r.1@.map_values(|e: usize| e as int) == exteriors(enclosing.deep_view()),
        forall|k: int| 0 <= k < r.1@.len() ==> #[trigger] r.1@[k] < enclosing@.len(),
{
    let ghost m = enclosing.deep_view();
    let n = enclosing.len();
    let mut flags: Vec<bool> = Vec::new();
    let mut ids: Vec<usize> = Vec::new();
    let mut i: usize = 0;
    while i < n
        invariant
            i <= n,
            n == enclosing@.len(),
            m == enclosing.deep_view(),
            m.len() == n,
            forall|j: int| 0 <= j < n ==> (#[trigger] enclosing@[j])@.len() == n,
            flags@.len() == i,
            forall|q: int| 0 <= q < i ==> #[trigger] flags@[q] == is_exterior(m, q),
            ids@.map_values(|e: usize| e as int) == exteriors_upto(m, i as int),
            forall|k: int| 0 <= k < ids@.len() ==> #[trigger] ids@[k] < i,
        decreases n - i,
    {
        let mut c: usize = 0;
        let mut j: usize = 0;
        while j < n
            invariant
                j <= n,
                i < n,
                n == enclosing@.len(),
                m == enclosing.deep_view(),
                m.len() == n,
                forall|q: int| 0 <= q < n ==> (#[trigger] enclosing@[q])@.len() == n,
                c == enclosure_count(m, i as int, j as int),
                c <= j,
            decreases n - j,
        {
            if j != i && enclosing[j][i] {
                c = c + 1;
            }
            j = j + 1;
        }
        let ext = c % 2 == 0;
        flags.push(ext);
        if ext {
            ids.push(i);
        }
        proof {
            assert(ids@.map_values(|e: usize| e as int) =~= exteriors_upto(m, i + 1));
        }
        i = i + 1;
    }
    (flags, ids)
}

/// Groups the rings into polygons. `enclosing[j][i]` tells whether ring `j`
/// contains ring `i`, and `area_sign[i]` is the sign of ring `i`'s area; the
/// rings come sorted by ascending absolute area. Each exterior makes one
/// polygon, each hole joins the first exterior that contains it, and the
/// polygons come largest exterior first. Fails when a hole lies in no
/// exterior.
pub fn assemble_polygons(
    enclosing: &Vec<Vec<bool>>,
    area_sign: &Vec<i8>,
    ensure_orientation: bool,
) -> (r: Result<Vec<PolygonPlan>, ErrorKind>)
    requires
        rings_wf(enclosing.deep_view(), area_sign@),
    ensures
        r is Ok <==> all_holes_owned(enclosing.deep_view()),
        r matches Err(e) ==> e == ErrorKind::PolygonReconstructionError,
        r matches Ok(plans) ==> plans_match(
            plans@,
            enclosing.deep_view(),
            area_sign@,
            ensure_orientation,
        ),
{
    let ghost m = enclosing.deep_view();
    let n = enclosing.len();
    assert(forall|j: int| 0 <= j < n ==> (#[trigger] enclosing@[j])@.len() == n) by {
        assert forall|j: int| 0 <= j < n implies (#[trigger] enclosing@[j])@.len() == n by {
            assert(m[j] == enclosing@[j]@);
        }
    }
    let (flags, ids) = classify_rings(enclosing);
    let ghost ext = exteriors(m);
    assert(ids@.len() == ext.len());
    assert(forall|k: int| 0 <= k < ids@.len() ==> ids@[k] as int == #[trigger] ext[k]);
    // the position of each hole's exterior among the exteriors
    let mut owners: Vec<usize> = Vec::new();
    let mut h: usize = 0;
    while h < n
        invariant
            h <= n,
            n == enclosing@.len(),
            m == enclosing.deep_view(),
            m.len() == n,
            forall|j: int| 0 <= j < n ==> (#[trigger] enclosing@[j])@.len() == n,
            flags@.len() == n,
            forall|i: int| 0 <= i < n ==> #[trigger] flags@[i] == is_exterior(m, i),
            ext == exteriors(m),
            ids@.len() == ext.len(),
            forall|k: int| 0 <= k < ids@.len() ==> ids@[k] as int == #[trigger] ext[k],
            forall|k: int| 0 <= k < ids@.len() ==> #[trigger] ids@[k] < n,
            owners@.len() == h,
            forall|q: int|
                0 <= q < h && !is_exterior(m, q) ==> #[trigger] owner(m, q) == Some(owners@[q] as int),
        decreases n - h,
    {
        if flags[h] {
            owners.push(0);
        } else {
            let mut k: usize = 0;
            let mut found = false;
            while k < ids.len() && !found
                invariant
                    k <= ids@.len(),
                    h < n,
                    n == enclosing@.len(),
                    m == enclosing.deep_view(),
                    forall|j: int| 0 <= j < n ==> (#[trigger] enclosing@[j])@.len() == n,
                    ids@.len() == ext.len(),
                    forall|q: int| 0 <= q < ids@.len() ==> ids@[q] as int == #[trigger] ext[q],
                    forall|q: int| 0 <= q < ids@.len() ==> #[trigger] ids@[q] < n,
                    forall|q: int| 0 <= q < k ==> !m[#[trigger] ext[q]][h as int],
                    found ==> k < ids@.len() && m[ext[k as int]][h as int],
                decreases ids@.len() - k + if found {
                    0int
                } else {
                    1int
                },
            {
                if enclosing[ids[k]][h] {
                    found = true;
                } else {
                    k = k + 1;
                }
            }
            proof {
                lemma_owner_scan(m, h as int, ext, k as int);
            }
            if !found {
                assert(owner(m, h as int) is None);
                return Err(ErrorKind::PolygonReconstructionError);
            }
            owners.push(k);
        }
        h = h + 1;
    }
    let e_count = ids.len();
    let mut plans: Vec<PolygonPlan> = Vec::new();
    let mut q: usize = 0;
    while q < e_count
        invariant
            q <= e_count,
            e_count == ids@.len(),
            n == enclosing@.len(),
            n == area_sign@.len(),
            m == enclosing.deep_view(),
            m.len() == n,
            flags@.len() == n,
            forall|i: int| 0 <= i < n ==> #[trigger] flags@[i] == is_exterior(m, i),
            ext == exteriors(m),
            ids@.len() == ext.len(),
            forall|k: int| 0 <= k < ids@.len() ==> ids@[k] as int == #[trigger] ext[k],
            forall|k: int| 0 <= k < ids@.len() ==> #[trigger] ids@[k] < n,
            owners@.len() == n,
            forall|p: int| 0 <= p < n && !is_exterior(m, p) ==> #[trigger] owner(m, p) == Some(owners@[p] as int),
            plans@.len() == q,
            forall|p: int|
                #![trigger plans@[p]]
                0 <= p < q ==> {
                    let k = ext.len() - 1 - p;
                    &&& plans@[p].exterior == ext[k]
                    &&& plans@[p].reverse_exterior == needs_reversal(area_sign@[ext[k]], true, ensure_orientation)
                    &&& plans@[p].holes@.map_values(|h: usize| h as int) == holes_upto(m, k, n as int)
                    &&& plans@[p].reverse_holes@.len() == plans@[p].holes@.len()
                    &&& forall|t: int|
                        0 <= t < plans@[p].holes@.len() ==> #[trigger] plans@[p].reverse_holes@[t]
                            == needs_reversal(area_sign@[plans@[p].holes@[t] as int], false, ensure_orientation)
                },
        decreases e_count - q,
    {
        let k = e_count - 1 - q;
        let e = ids[k];
        let mut holes: Vec<usize> = Vec::new();
        let mut reverse_holes: Vec<bool> = Vec::new();
        let mut p: usize = 0;
        while p < n
            invariant
                p <= n,
                k < e_count,
                e_count == ids@.len(),
                n == area_sign@.len(),
                m.len() == n,
                flags@.len() == n,
                forall|i: int| 0 <= i < n ==> #[trigger] flags@[i] == is_exterior(m, i),
                owners@.len() == n,
                forall|r: int| 0 <= r < n && !is_exterior(m, r) ==> #[trigger] owner(m, r) == Some(owners@[r] as int),
                holes@.map_values(|h: usize| h as int) == holes_upto(m, k as int, p as int),
                reverse_holes@.len() == holes@.len(),
                forall|t: int| 0 <= t < holes@.len() ==> #[trigger] holes@[t] < n,
                forall|t: int|
                    0 <= t < holes@.len() ==> #[trigger] reverse_holes@[t] == needs_reversal(
                        area_sign@[holes@[t] as int],
                        false,
                        ensure_orientation,
                    ),
            decreases n - p,
        {
            if !flags[p] && owners[p] == k {
                holes.push(p);
                reverse_holes.push(reversal(area_sign[p], false, ensure_orientation));
            }
            proof {
                assert(holes@.map_values(|h: usize| h as int) =~= holes_upto(m, k as int, p + 1));
            }
            p = p + 1;
        }
        plans.push(
            PolygonPlan {
                exterior: e,
                reverse_exterior: reversal(area_sign[e], true, ensure_orientation),
                holes,
                reverse_holes,
            },
        );
        q = q + 1;
    }
    Ok(plans)
}


/// The sign of a ring's area once it has been reversed or not.
pub open spec fn wound_sign(sign: i8, reversed: bool) -> int {
    if reversed {
        -(sign as int)
    } else {
        sign as int
    }
}

/// With orientation enforced, every exterior ends up with a positive area
/// and every hole with a negative one, for rings whose area is not zero.
pub proof fn lemma_winding(plans: Seq<PolygonPlan>, m: Seq<Seq<bool>>, area_sign: Seq<i8>)
    requires
        rings_wf(m, area_sign),
        plans_match(plans, m, area_sign, true),
        forall|i: int| 0 <= i < area_sign.len() ==> #[trigger] area_sign[i] != 0,
    ensures
        forall|q: int|
            0 <= q < plans.len() ==> wound_sign(
                area_sign[(#[trigger] plans[q]).exterior as int],
                plans[q].reverse_exterior,
            ) > 0,
        forall|q: int, t: int|
            0 <= q < plans.len() && 0 <= t < plans[q].holes@.len() ==> wound_sign(
                area_sign[plans[q].holes@[t] as int],
                #[trigger] plans[q].reverse_holes@[t],
            ) < 0,
{
    assert forall|q: int| 0 <= q < plans.len() implies wound_sign(
        area_sign[(#[trigger] plans[q]).exterior as int],
        plans[q].reverse_exterior,
    ) > 0 by {
        lemma_exteriors_in_range(m, m.len() as int);
        let k = exteriors(m).len() - 1 - q;
        assert(0 <= exteriors(m)[k] < m.len());
    }
    assert forall|q: int, t: int|
        0 <= q < plans.len() && 0 <= t < plans[q].holes@.len() implies wound_sign(
        area_sign[plans[q].holes@[t] as int],
        #[trigger] plans[q].reverse_holes@[t],
    ) < 0 by {
        let k = exteriors(m).len() - 1 - q;
        lemma_holes_upto(m, k, m.len() as int);
        assert(plans[q].holes@.map_values(|h: usize| h as int)[t] == plans[q].holes@[t] as int);
    }
}

proof fn lemma_exteriors_in_range(m: Seq<Seq<bool>>, upto: int)
    requires
        0 <= upto,
    ensures
        forall|k: int|
            0 <= k < exteriors_upto(m, upto).len() ==> 0 <= #[trigger] exteriors_upto(m, upto)[k] < upto
                && is_exterior(m, exteriors_upto(m, upto)[k]),
    decreases upto,
{
    if upto > 0 {
        lemma_exteriors_in_range(m, upto - 1);
        let prev = exteriors_upto(m, upto - 1);
        assert forall|k: int| 0 <= k < prev.len() implies #[trigger] exteriors_upto(m, upto)[k] == prev[k] by {
            if is_exterior(m, upto - 1) {
                assert(exteriors_upto(m, upto) == prev.push(upto - 1));
            }
        }
    }
}

proof fn lemma_holes_upto(m: Seq<Seq<bool>>, k: int, upto: int)
    requires
        0 <= upto,
    ensures
        forall|t: int|
            0 <= t < holes_upto(m, k, upto).len() ==> {
                let h = #[trigger] holes_upto(m, k, upto)[t];
                &&& 0 <= h < upto
                &&& !is_exterior(m, h)
                &&& owner(m, h) == Some(k)
            },
    decreases upto,
{
    if upto > 0 {
        lemma_holes_upto(m, k, upto - 1);
    }
}

proof fn lemma_owner_contains(m: Seq<Seq<bool>>, h: int, ext: Seq<int>, from: int)
    ensures
        owner_from(m, h, ext, from) matches Some(k) ==> 0 <= k < ext.len() && m[ext[k]][h],
    decreases ext.len() - from,
{
    if 0 <= from < ext.len() && !m[ext[from]][h] {
        lemma_owner_contains(m, h, ext, from + 1);
    }
}

/// Every hole of a polygon lies inside that polygon's exterior, and is not
/// an exterior itself.
pub proof fn lemma_holes_contained(plans: Seq<PolygonPlan>, m: Seq<Seq<bool>>, area_sign: Seq<i8>, ensure_orientation: bool)
    requires
        rings_wf(m, area_sign),
        plans_match(plans, m, area_sign, ensure_orientation),
    ensures
        forall|q: int, t: int|
            0 <= q < plans.len() && 0 <= t < plans[q].holes@.len() ==> m[plans[q].exterior as int][#[trigger] plans[q].holes@[t] as int]
                && !is_exterior(m, plans[q].holes@[t] as int),
        forall|q: int| 0 <= q < plans.len() ==> is_exterior(m, (#[trigger] plans[q]).exterior as int),
{
    lemma_exteriors_in_range(m, m.len() as int);
    assert forall|q: int, t: int|
        0 <= q < plans.len() && 0 <= t < plans[q].holes@.len() implies m[plans[q].exterior as int][#[trigger] plans[q].holes@[t] as int]
        && !is_exterior(m, plans[q].holes@[t] as int) by {
        let k = exteriors(m).len() - 1 - q;
        lemma_holes_upto(m, k, m.len() as int);
        let h = plans[q].holes@[t] as int;
        assert(plans[q].holes@.map_values(|h: usize| h as int)[t] == h);
        lemma_owner_contains(m, h, exteriors(m), 0);
    }
    assert forall|q: int| 0 <= q < plans.len() implies is_exterior(m, (#[trigger] plans[q]).exterior as int) by {
        let k = exteriors(m).len() - 1 - q;
        assert(exteriors(m)[k] == plans[q].exterior);
    }
}

} // verus!

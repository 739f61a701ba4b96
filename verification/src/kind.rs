//! Kind values: a packed chain of 8-bit ids describing an element's type and
//! the types it derives from, lowest byte first.

use vstd::prelude::*;

verus! {

pub type KindValue = u64;

const ID_MASK: u64 = 255;

const DEPTH_MAX: usize = 8;

/// The id stored at level `i` of a kind (level 0 is the kind's own id).
pub open spec fn kind_level(kind: KindValue, i: int) -> KindValue {
    (kind >> ((8 * i) as u64)) & 255u64
}

/// `kind` derives from `target`: either `kind` is exactly the id of `target`,
/// or that id occurs in the chain of ids of `kind` before its first empty level.
pub open spec fn spec_is_kind(kind: KindValue, target: KindValue) -> bool {
    ||| kind == target & 255u64
    ||| exists|i: int|
        0 <= i < 8 && #[trigger] kind_level(kind, i) == target & 255u64 && chain_nonzero_below(
            kind,
            i,
        )
}

/// Every level of `kind` below `i` holds a non-zero id.
pub open spec fn chain_nonzero_below(kind: KindValue, i: int) -> bool {
    forall|j: int| 0 <= j < i ==> #[trigger] kind_level(kind, j) != 0
}

/// The ids of `base` from level `l` up to its first empty level (at most level 7).
pub open spec fn chain_from(base: KindValue, l: nat) -> Seq<KindValue>
    decreases 8 - l,
{
    if l >= 8 {
        seq![]
    } else if kind_level(base, l as int) == 0 {
        seq![]
    } else {
        seq![kind_level(base, l as int)] + chain_from(base, l + 1)
    }
}

/// The chains of all bases, one after another.
pub open spec fn base_ids(bases: Seq<KindValue>) -> Seq<KindValue>
    decreases bases.len(),
{
    if bases.len() == 0 {
        seq![]
    } else {
        base_ids(bases.drop_last()) + chain_from(bases.last(), 0)
    }
}

/// `s` without repetitions, each value kept at its first occurrence.
pub open spec fn dedup(s: Seq<KindValue>) -> Seq<KindValue>
    decreases s.len(),
{
    if s.len() == 0 {
        seq![]
    } else {
        let d = dedup(s.drop_last());
        if d.contains(s.last()) {
            d
        } else {
            d.push(s.last())
        }
    }
}

/// `low` with the ids of `ids` placed at levels 1, 2, ... in order.
pub open spec fn pack(low: KindValue, ids: Seq<KindValue>) -> KindValue
    decreases ids.len(),
{
    if ids.len() == 0 {
        low
    } else {
        pack(low, ids.drop_last()) | (ids.last() << ((8 * ids.len()) as u64))
    }
}

/// The kind made from `id` and the given bases.
pub open spec fn spec_make_kind(id: u8, bases: Seq<KindValue>) -> KindValue {
    pack((id as u64) & 255u64, dedup(base_ids(bases)))
}

/// The kind's own id (its lowest 8 bits).
pub fn kind_id(kind: KindValue) -> (r: KindValue)
    ensures
        r == kind & 255u64,
        r == kind_level(kind, 0),
{
    assert(kind >> 0u64 == kind) by (bit_vector);
    kind & ID_MASK
}

/// The ids at levels 1 to 7 of `kind`, followed by a 0.
pub fn kind_bases(kind: KindValue) -> (bases: [KindValue; 8])
    ensures
        forall|i: int| 0 <= i < 7 ==> #[trigger] bases@[i] == kind_level(kind, i + 1),
        bases@[7] == 0,
{
    let mut bases = [0u64;8];
    let mut i: usize = 1;
    while i < DEPTH_MAX
        invariant
            1 <= i <= 8,
            bases@.len() == 8,
            forall|j: int| 0 <= j < i - 1 ==> #[trigger] bases@[j] == kind_level(kind, j + 1),
            forall|j: int| i - 1 <= j < 8 ==> #[trigger] bases@[j] == 0,
        decreases 8 - i,
    {
        bases[i - 1] = (kind >> ((8 * i) as u64)) & ID_MASK;
        i += 1;
    }
    bases
}

/// Everything above the kind's own id.
pub fn kind_base(kind: KindValue) -> (r: KindValue)
    ensures
        r == kind >> 8u64,
{
    kind >> 8
}

proof fn lemma_chain_from_levels(base: KindValue, k: nat, l: nat)
    requires
        k <= l <= 8,
        chain_nonzero_below(base, l as int),
        l == 8 || kind_level(base, l as int) == 0,
    ensures
        chain_from(base, k) =~= Seq::new((l - k) as nat, |j: int| kind_level(base, k + j)),
    decreases l - k,
{
    if k < l {
        assert(kind_level(base, k as int) != 0);
        lemma_chain_from_levels(base, k + 1, l);
    }
}

proof fn lemma_dedup_push(s: Seq<KindValue>, x: KindValue)
    ensures
        dedup(s.push(x)) == (if dedup(s).contains(x) {
            dedup(s)
        } else {
            dedup(s).push(x)
        }),
{
    assert(s.push(x).drop_last() =~= s);
}

proof fn lemma_dedup_len_grows(s: Seq<KindValue>, t: Seq<KindValue>)
    ensures
        dedup(s).len() <= dedup(s + t).len(),
    decreases t.len(),
{
    if t.len() > 0 {
        lemma_dedup_len_grows(s, t.drop_last());
        assert((s + t).drop_last() =~= s + t.drop_last());
    } else {
        assert(s + t =~= s);
    }
}

proof fn lemma_base_ids_append(a: Seq<KindValue>, b: Seq<KindValue>)
    ensures
        base_ids(a + b) == base_ids(a) + base_ids(b),
    decreases b.len(),
{
    if b.len() == 0 {
        assert(a + b =~= a);
        assert(base_ids(a) + base_ids(b) =~= base_ids(a));
    } else {
        assert((a + b).drop_last() =~= a + b.drop_last());
        lemma_base_ids_append(a, b.drop_last());
        assert(base_ids(a) + base_ids(b.drop_last()) + chain_from(b.last(), 0) =~= base_ids(a)
            + (base_ids(b.drop_last()) + chain_from(b.last(), 0)));
    }
}

proof fn lemma_pack_push(low: KindValue, ids: Seq<KindValue>, x: KindValue)
    ensures
        pack(low, ids.push(x)) == pack(low, ids) | (x << ((8 * (ids.len() + 1)) as u64)),
{
    assert(ids.push(x).drop_last() =~= ids);
}

/// Makes a kind from an id and the kinds it derives from: the id sits at level 0,
/// followed by every id found in the bases' chains, each once, in order of
/// first appearance.
pub fn make_kind_impl<const BASE_COUNT: usize>(id: u8, bases: [KindValue; BASE_COUNT]) -> (r:
    KindValue)
    requires
        dedup(base_ids(bases@)).len() <= 7,
    ensures
        r == spec_make_kind(id, bases@),
{
    let mut result: u64 = (id as u64) & ID_MASK;
    let mut kind_ids: Vec<u64> = Vec::new();
    let mut base_idx: usize = 0;
    let ghost all = bases@;
    proof {
        assert(all.subrange(0, 0) =~= seq![]);
        assert(dedup(base_ids(seq![])) =~= seq![]);
    }
    while base_idx < BASE_COUNT
        invariant
            0 <= base_idx <= BASE_COUNT,
            all == bases@,
            all.len() == BASE_COUNT,
            dedup(base_ids(all)).len() <= 7,
            kind_ids@ == dedup(base_ids(all.subrange(0, base_idx as int))),
            result == pack((id as u64) & 255u64, kind_ids@),
        decreases BASE_COUNT - base_idx,
    {
        let base = bases[base_idx];
        let ghost prefix = base_ids(all.subrange(0, base_idx as int));
        let mut level: usize = 0;
        let mut go = true;
        proof {
            assert(prefix + Seq::new(0, |j: int| kind_level(base, j)) =~= prefix);
            lemma_base_ids_append(
                all.subrange(0, base_idx as int + 1),
                all.subrange(base_idx as int + 1, all.len() as int),
            );
            assert(all.subrange(0, base_idx as int + 1) + all.subrange(
                base_idx as int + 1,
                all.len() as int,
            ) =~= all);
            assert(all.subrange(0, base_idx as int + 1).drop_last() =~= all.subrange(
                0,
                base_idx as int,
            ));
        }
        while go && level < DEPTH_MAX
            invariant
                0 <= level <= 8,
                all == bases@,
                0 <= base_idx < BASE_COUNT,
                all.len() == BASE_COUNT,
                base == all[base_idx as int],
                prefix == base_ids(all.subrange(0, base_idx as int)),
                dedup(base_ids(all)).len() <= 7,
                base_ids(all) == prefix + chain_from(base, 0) + base_ids(
                    all.subrange(base_idx as int + 1, all.len() as int),
                ),
                chain_nonzero_below(base, level as int),
                !go ==> kind_level(base, level as int) == 0,
                kind_ids@ == dedup(prefix + Seq::new(level as nat, |j: int| kind_level(base, j))),
                result == pack((id as u64) & 255u64, kind_ids@),
            decreases (if go { 9 - level } else { 0 }),
        {
            let base_id = if level == 0 {
                base & ID_MASK
            } else {
                (base >> ((8 * level) as u64)) & ID_MASK
            };
            proof {
                assert(base >> 0u64 == base) by (bit_vector);
            }
            assert(base_id == kind_level(base, level as int));
            if base_id == 0 {
                go = false;
            } else {
                let ghost seen = prefix + Seq::new(level as nat, |j: int| kind_level(base, j));
                let ghost next = prefix + Seq::new(level as nat + 1, |j: int| kind_level(base, j));
                proof {
                    assert(next =~= seen.push(base_id));
                    lemma_dedup_push(seen, base_id);
                }
                let mut already_exists = false;
                let mut check_idx: usize = 0;
                while check_idx < kind_ids.len()
                    invariant
                        0 <= check_idx <= kind_ids.len(),
                        already_exists <==> exists|k: int|
                            0 <= k < check_idx && kind_ids@[k] == base_id,
                    decreases kind_ids.len() - check_idx,
                {
                    if kind_ids[check_idx] == base_id {
                        already_exists = true;
                    }
                    check_idx += 1;
                }
                assert(already_exists <==> kind_ids@.contains(base_id));
                if !already_exists {
                    proof {
                        // the ids read so far start all chains; their dedup is no longer than the whole
                        lemma_chain_prefix(base, level as nat + 1);
                        let c = chain_from(base, 0);
                        let tail = c.subrange(level as int + 1, c.len() as int) + base_ids(
                            all.subrange(base_idx as int + 1, all.len() as int),
                        );
                        assert(c =~= c.subrange(0, level as int + 1) + c.subrange(
                            level as int + 1,
                            c.len() as int,
                        ));
                        assert(base_ids(all) =~= next + tail);
                        lemma_dedup_len_grows(next, tail);
                    }
                    let ghost old_ids = kind_ids@;
                    kind_ids.push(base_id);
                    let index = kind_ids.len();
                    proof {
                        lemma_pack_push((id as u64) & 255u64, old_ids, base_id);
                        assert(old_ids.push(base_id) =~= kind_ids@);
                    }
                    result = result | (base_id << ((8 * index) as u64));
                }
                level += 1;
            }
        }
        proof {
            lemma_chain_from_levels(base, 0, level as nat);
            let upto = all.subrange(0, base_idx as int + 1);
            assert(upto.drop_last() =~= all.subrange(0, base_idx as int));
            assert(upto.last() == base);
            assert(base_ids(upto) == prefix + chain_from(base, 0));
            assert(chain_from(base, 0) =~= Seq::new(level as nat, |j: int| kind_level(base, j)));
        }
        base_idx += 1;
    }
    proof {
        assert(all.subrange(0, BASE_COUNT as int) =~= all);
    }
    result
}

/// When the first `n` levels of `base` are non-zero, they begin its chain.
proof fn lemma_chain_prefix(base: KindValue, n: nat)
    requires
        n <= 8,
        chain_nonzero_below(base, n as int),
    ensures
        chain_from(base, 0).len() >= n,
        chain_from(base, 0).subrange(0, n as int) =~= Seq::new(n, |j: int| kind_level(base, j)),
{
    lemma_chain_prefix_from(base, 0, n);
}

proof fn lemma_chain_prefix_from(base: KindValue, k: nat, n: nat)
    requires
        k <= n <= 8,
        chain_nonzero_below(base, n as int),
    ensures
        chain_from(base, k).len() >= n - k,
        chain_from(base, k).subrange(0, n - k) =~= Seq::new(
            (n - k) as nat,
            |j: int| kind_level(base, k + j),
        ),
    decreases n - k,
{
    if k < n {
        lemma_chain_prefix_from(base, k + 1, n);
        assert(kind_level(base, k as int) != 0);
        let c = chain_from(base, k);
        let t = chain_from(base, k + 1);
        assert(c == seq![kind_level(base, k as int)] + t);
        assert(c.subrange(0, n - k) =~= seq![kind_level(base, k as int)] + t.subrange(0, n - k - 1));
    }
}

/// Every kind is of its own kind.
pub proof fn law_is_kind_reflexive(k: KindValue)
    ensures
        spec_is_kind(k, k),
{
    assert((k >> 0u64) & 255u64 == k & 255u64) by (bit_vector);
    assert(kind_level(k, 0) == k & 255u64);
    assert(chain_nonzero_below(k, 0));
}

proof fn lemma_level_split(x: u64, y: u64, t: u64)
    requires
        t < 8,
    ensures
        ((x | y) >> (8 * t)) & 255u64 == ((x >> (8 * t)) & 255u64) | ((y >> (8 * t)) & 255u64),
{
    assert(((x | y) >> (8 * t)) & 255u64 == ((x >> (8 * t)) & 255u64) | ((y >> (8 * t)) & 255u64))
        by (bit_vector)
        requires
            t < 8,
    ;
}

proof fn lemma_level_shifted(v: u64, m: u64, t: u64)
    requires
        v < 256,
        m < 8,
        t < 8,
    ensures
        ((v << (8 * m)) >> (8 * t)) & 255u64 == (if t == m {
            v
        } else {
            0
        }),
{
    assert(((v << (8 * m)) >> (8 * t)) & 255u64 == (if t == m {
        v
    } else {
        0
    })) by (bit_vector)
        requires
            v < 256,
            m < 8,
            t < 8,
    ;
}

proof fn lemma_level_small(v: u64, t: u64)
    requires
        v < 256,
        t < 8,
    ensures
        (v >> (8 * t)) & 255u64 == (if t == 0 {
            v
        } else {
            0
        }),
{
    assert((v >> (8 * t)) & 255u64 == (if t == 0 {
        v
    } else {
        0
    })) by (bit_vector)
        requires
            v < 256,
            t < 8,
    ;
}

/// The level `t` of a packed kind: the low id at level 0, then the ids in
/// order, then nothing.
proof fn lemma_pack_levels(low: KindValue, ids: Seq<KindValue>, t: int)
    requires
        low < 256,
        ids.len() <= 7,
        forall|i: int| 0 <= i < ids.len() ==> ids[i] < 256,
        0 <= t < 8,
    ensures
        kind_level(pack(low, ids), t) == (if t == 0 {
            low
        } else if t <= ids.len() {
            ids[t - 1]
        } else {
            0
        }),
    decreases ids.len(),
{
    let tu = t as u64;
    assert(((8 * t) as u64) == 8 * tu);
    if ids.len() == 0 {
        lemma_level_small(low, tu);
    } else {
        let n = ids.len();
        let x = pack(low, ids.drop_last());
        let v = ids.last();
        assert(pack(low, ids) == x | (v << ((8 * n) as u64)));
        let mu = n as u64;
        assert(((8 * n) as u64) == 8 * mu);
        lemma_level_split(x, v << (8 * mu), tu);
        lemma_level_shifted(v, mu, tu);
        lemma_pack_levels(low, ids.drop_last(), t);
        if t >= 1 && t < n {
            assert(ids.drop_last()[t - 1] == ids[t - 1]);
        }
        let a = (x >> (8 * tu)) & 255u64;
        let b = ((v << (8 * mu)) >> (8 * tu)) & 255u64;
        assert(a | 0u64 == a) by (bit_vector);
        assert(0u64 | b == b) by (bit_vector);
    }
}

proof fn lemma_chain_values(base: KindValue, l: nat)
    ensures
        forall|i: int| 0 <= i < chain_from(base, l).len() ==> chain_from(base, l)[i] != 0 && chain_from(base, l)[i] < 256,
    decreases 8 - l,
{
    if l < 8 && kind_level(base, l as int) != 0 {
        lemma_chain_values(base, l + 1);
        let x = base >> ((8 * l) as u64);
        assert(x & 255u64 < 256) by (bit_vector);
        let c = chain_from(base, l);
        let rest = chain_from(base, l + 1);
        assert forall|i: int| 0 <= i < c.len() implies c[i] != 0 && c[i] < 256 by {
            if i > 0 {
                assert(c[i] == rest[i - 1]);
            }
        }
    }
}

proof fn lemma_base_ids_values(bases: Seq<KindValue>)
    ensures
        forall|i: int| 0 <= i < base_ids(bases).len() ==> base_ids(bases)[i] != 0 && base_ids(bases)[i] < 256,
    decreases bases.len(),
{
    if bases.len() > 0 {
        lemma_base_ids_values(bases.drop_last());
        lemma_chain_values(bases.last(), 0);
        let a = base_ids(bases.drop_last());
        let c = chain_from(bases.last(), 0);
        assert forall|i: int| 0 <= i < (a + c).len() implies (a + c)[i] != 0 && (a + c)[i] < 256 by {
            if i >= a.len() {
                assert((a + c)[i] == c[i - a.len()]);
            }
        }
    }
}

proof fn lemma_base_ids_contains(bases: Seq<KindValue>, j: int)
    requires
        0 <= j < bases.len(),
        kind_level(bases[j], 0) != 0,
    ensures
        base_ids(bases).contains(kind_level(bases[j], 0)),
    decreases bases.len(),
{
    let a = base_ids(bases.drop_last());
    let c = chain_from(bases.last(), 0);
    if j == bases.len() - 1 {
        assert(c[0] == kind_level(bases[j], 0));
        assert((a + c)[a.len() as int] == c[0]);
    } else {
        lemma_base_ids_contains(bases.drop_last(), j);
        assert(bases.drop_last()[j] == bases[j]);
        let k = choose|k: int| 0 <= k < a.len() && a[k] == kind_level(bases[j], 0);
        assert((a + c)[k] == a[k]);
    }
}

proof fn lemma_dedup_members(s: Seq<KindValue>)
    ensures
        forall|x: KindValue| #[trigger] dedup(s).contains(x) <==> s.contains(x),
    decreases s.len(),
{
    if s.len() > 0 {
        lemma_dedup_members(s.drop_last());
        let d = dedup(s.drop_last());
        assert forall|x: KindValue| #[trigger] dedup(s).contains(x) <==> s.contains(x) by {
            if s.contains(x) {
                let k = choose|k: int| 0 <= k < s.len() && s[k] == x;
                if k < s.len() - 1 {
                    assert(s.drop_last()[k] == x);
                }
            }
            if s.drop_last().contains(x) {
                let k = choose|k: int| 0 <= k < s.drop_last().len() && s.drop_last()[k] == x;
                assert(s[k] == x);
            }
            if !d.contains(s.last()) {
                if d.push(s.last()).contains(x) {
                    let k = choose|k: int| 0 <= k < d.push(s.last()).len() && d.push(s.last())[k] == x;
                    if k < d.len() {
                        assert(d[k] == x);
                    }
                }
                if d.contains(x) {
                    let k = choose|k: int| 0 <= k < d.len() && d[k] == x;
                    assert(d.push(s.last())[k] == x);
                }
                assert(d.push(s.last())[d.len() as int] == s.last());
            }
            assert(s[s.len() - 1] == s.last());
        }
    }
}

/// A kind made with `make_kind` from an id and bases is of the kind of each
/// of its bases (when the id and the base's own id are not empty).
pub proof fn law_made_kind_is_each_base(id: u8, bases: Seq<KindValue>, j: int)
    requires
        id != 0,
        0 <= j < bases.len(),
        kind_level(bases[j], 0) != 0,
        dedup(base_ids(bases)).len() <= 7,
    ensures
        spec_is_kind(spec_make_kind(id, bases), bases[j]),
{
    let b = bases[j];
    assert((b >> 0u64) & 255u64 == b & 255u64) by (bit_vector);
    assert(kind_level(b, 0) == b & 255u64);
    let ids = dedup(base_ids(bases));
    let low = (id as u64) & 255u64;
    assert(low == id as u64) by (bit_vector)
        requires
            low == (id as u64) & 255u64,
    ;
    lemma_base_ids_contains(bases, j);
    lemma_dedup_members(base_ids(bases));
    lemma_base_ids_values(bases);
    assert(ids.contains(b & 255u64));
    let k = choose|k: int| 0 <= k < ids.len() && ids[k] == b & 255u64;
    assert forall|i: int| 0 <= i < ids.len() implies ids[i] != 0 && ids[i] < 256 by {
        assert(ids.contains(ids[i]));
        assert(base_ids(bases).contains(ids[i]));
        let q = choose|q: int| 0 <= q < base_ids(bases).len() && base_ids(bases)[q] == ids[i];
    }
    let made = spec_make_kind(id, bases);
    assert(made == pack(low, ids));
    lemma_pack_levels(low, ids, k + 1);
    assert forall|t: int| 0 <= t < k + 1 implies #[trigger] kind_level(made, t) != 0 by {
        lemma_pack_levels(low, ids, t);
    }
    assert(kind_level(made, k + 1) == b & 255u64);
}

proof fn lemma_base_ids_contains_level(bases: Seq<KindValue>, j: int, l: int)
    requires
        0 <= j < bases.len(),
        0 <= l < 8,
        chain_nonzero_below(bases[j], l + 1),
    ensures
        base_ids(bases).contains(kind_level(bases[j], l)),
    decreases bases.len(),
{
    let a = base_ids(bases.drop_last());
    let c = chain_from(bases.last(), 0);
    if j == bases.len() - 1 {
        lemma_chain_prefix(bases[j], (l + 1) as nat);
        assert(c.subrange(0, l + 1)[l] == kind_level(bases[j], l));
        assert(c[l] == kind_level(bases[j], l));
        assert((a + c)[a.len() + l] == c[l]);
    } else {
        assert(bases.drop_last()[j] == bases[j]);
        lemma_base_ids_contains_level(bases.drop_last(), j, l);
        let k = choose|k: int| 0 <= k < a.len() && a[k] == kind_level(bases[j], l);
        assert((a + c)[k] == a[k]);
    }
}

/// A kind made with `make_kind` is of every kind that one of its bases is
/// of (when the id is not empty).
pub proof fn law_made_kind_inherits(id: u8, bases: Seq<KindValue>, j: int, t: KindValue)
    requires
        id != 0,
        0 <= j < bases.len(),
        spec_is_kind(bases[j], t),
        t & 255u64 != 0,
        dedup(base_ids(bases)).len() <= 7,
    ensures
        spec_is_kind(spec_make_kind(id, bases), t),
{
    let b = bases[j];
    let x = t & 255u64;
    let l: int = if b == x {
        assert((b >> 0u64) & 255u64 == t & 255u64) by (bit_vector)
            requires
                b == t & 255u64,
        ;
        assert(kind_level(b, 0) == x);
        0
    } else {
        choose|i: int| 0 <= i < 8 && #[trigger] kind_level(b, i) == x && chain_nonzero_below(b, i)
    };
    assert(0 <= l < 8 && kind_level(b, l) == x && chain_nonzero_below(b, l));
    assert(chain_nonzero_below(b, l + 1));
    let ids = dedup(base_ids(bases));
    let low = (id as u64) & 255u64;
    assert(low == id as u64) by (bit_vector)
        requires
            low == (id as u64) & 255u64,
    ;
    lemma_base_ids_contains_level(bases, j, l);
    lemma_dedup_members(base_ids(bases));
    lemma_base_ids_values(bases);
    assert(ids.contains(x));
    let k = choose|k: int| 0 <= k < ids.len() && ids[k] == x;
    assert forall|i: int| 0 <= i < ids.len() implies ids[i] != 0 && ids[i] < 256 by {
        assert(ids.contains(ids[i]));
        assert(base_ids(bases).contains(ids[i]));
        let q = choose|q: int| 0 <= q < base_ids(bases).len() && base_ids(bases)[q] == ids[i];
    }
    let made = spec_make_kind(id, bases);
    assert(made == pack(low, ids));
    lemma_pack_levels(low, ids, k + 1);
    assert forall|u: int| 0 <= u < k + 1 implies #[trigger] kind_level(made, u) != 0 by {
        lemma_pack_levels(low, ids, u);
    }
    assert(kind_level(made, k + 1) == x);
}

/// The chain of a kind whose first `n` levels are non-zero and whose level
/// `n` is empty.
proof fn lemma_chain_of(base: KindValue, n: nat)
    requires
        n < 8,
        chain_nonzero_below(base, n as int),
        kind_level(base, n as int) == 0,
    ensures
        chain_from(base, 0) == Seq::new(n, |j: int| kind_level(base, j)),
{
    lemma_chain_from_levels(base, 0, n);
}

/// `STATE` is made from id 8 and the bases `VERTEX` and `NAMESPACE`.
pub proof fn law_state_kind_made()
    ensures
        STATE == spec_make_kind(8, seq![VERTEX, NAMESPACE]),
{
    assert(((259u64 >> 0u64) & 255u64) == 3u64 && ((259u64 >> 8u64) & 255u64) == 1u64 && ((259u64 >> 16u64) & 255u64) == 0u64
        && ((258u64 >> 0u64) & 255u64) == 2u64 && ((258u64 >> 8u64) & 255u64) == 1u64 && ((258u64 >> 16u64) & 255u64) == 0u64
        && (8u64 & 255u64) == 8u64
        && (((8u64 | (3u64 << 8u64)) | (1u64 << 16u64)) | (2u64 << 24u64)) == 33620744u64) by (bit_vector);
    lemma_chain_of(VERTEX, 2);
    lemma_chain_of(NAMESPACE, 2);
    let bases = seq![VERTEX, NAMESPACE];
    assert(chain_from(VERTEX, 0) =~= seq![3u64, 1u64]);
    assert(chain_from(NAMESPACE, 0) =~= seq![2u64, 1u64]);
    assert(bases.drop_last() =~= seq![VERTEX]);
    assert(seq![VERTEX].drop_last() =~= Seq::<KindValue>::empty());
    reveal_with_fuel(base_ids, 3);
    assert(base_ids(seq![VERTEX]) =~= seq![3u64, 1u64]);
    let all = seq![3u64, 1u64, 2u64, 1u64];
    assert(base_ids(bases) =~= all);
    reveal_with_fuel(dedup, 5);
    assert(all.drop_last() =~= seq![3u64, 1u64, 2u64]);
    assert(seq![3u64, 1u64, 2u64].drop_last() =~= seq![3u64, 1u64]);
    assert(seq![3u64, 1u64].drop_last() =~= seq![3u64]);
    assert(seq![3u64].drop_last() =~= Seq::<KindValue>::empty());
    assert(dedup(seq![3u64]) =~= seq![3u64]);
    assert(dedup(seq![3u64, 1u64]) =~= seq![3u64, 1u64]);
    assert(!seq![3u64, 1u64].contains(2u64));
    assert(dedup(seq![3u64, 1u64, 2u64]) =~= seq![3u64, 1u64, 2u64]);
    assert(seq![3u64, 1u64, 2u64][1] == 1u64);
    assert(dedup(all) =~= seq![3u64, 1u64, 2u64]);
    let ids = seq![3u64, 1u64, 2u64];
    assert(ids.drop_last() =~= seq![3u64, 1u64]);
    reveal_with_fuel(pack, 4);
    assert(pack(8u64, ids) == ((8u64 | (3u64 << 8u64)) | (1u64 << 16u64)) | (2u64 << 24u64));
}

/// `STATE_MACHINE` is made from id 7 and the bases `BEHAVIOR`, `NAMESPACE`
/// and `STATE`.
pub proof fn law_state_machine_kind_made()
    ensures
        STATE_MACHINE == spec_make_kind(7, seq![BEHAVIOR, NAMESPACE, STATE]),
{
    assert(((261u64 >> 0u64) & 255u64) == 5u64 && ((261u64 >> 8u64) & 255u64) == 1u64 && ((261u64 >> 16u64) & 255u64) == 0u64
        && ((258u64 >> 0u64) & 255u64) == 2u64 && ((258u64 >> 8u64) & 255u64) == 1u64 && ((258u64 >> 16u64) & 255u64) == 0u64
        && ((33620744u64 >> 0u64) & 255u64) == 8u64 && ((33620744u64 >> 8u64) & 255u64) == 3u64
        && ((33620744u64 >> 16u64) & 255u64) == 1u64 && ((33620744u64 >> 24u64) & 255u64) == 2u64
        && ((33620744u64 >> 32u64) & 255u64) == 0u64 && (7u64 & 255u64) == 7u64
        && (((((7u64 | (5u64 << 8u64)) | (1u64 << 16u64)) | (2u64 << 24u64)) | (8u64 << 32u64)) | (3u64 << 40u64)) == 3332928242951u64)
        by (bit_vector);
    lemma_chain_of(BEHAVIOR, 2);
    lemma_chain_of(NAMESPACE, 2);
    lemma_chain_of(STATE, 4);
    assert(chain_from(BEHAVIOR, 0) =~= seq![5u64, 1u64]);
    assert(chain_from(NAMESPACE, 0) =~= seq![2u64, 1u64]);
    assert(chain_from(STATE, 0) =~= seq![8u64, 3u64, 1u64, 2u64]);
    let bases = seq![BEHAVIOR, NAMESPACE, STATE];
    assert(bases.drop_last() =~= seq![BEHAVIOR, NAMESPACE]);
    assert(seq![BEHAVIOR, NAMESPACE].drop_last() =~= seq![BEHAVIOR]);
    assert(seq![BEHAVIOR].drop_last() =~= Seq::<KindValue>::empty());
    reveal_with_fuel(base_ids, 4);
    let all = seq![5u64, 1u64, 2u64, 1u64, 8u64, 3u64, 1u64, 2u64];
    assert(base_ids(bases) =~= all);
    reveal_with_fuel(dedup, 9);
    let s1 = seq![5u64];
    let s2 = seq![5u64, 1u64];
    let s3 = seq![5u64, 1u64, 2u64];
    let s4 = seq![5u64, 1u64, 2u64, 1u64];
    let s5 = seq![5u64, 1u64, 2u64, 1u64, 8u64];
    let s6 = seq![5u64, 1u64, 2u64, 1u64, 8u64, 3u64];
    let s7 = seq![5u64, 1u64, 2u64, 1u64, 8u64, 3u64, 1u64];
    assert(s1.drop_last() =~= Seq::<KindValue>::empty());
    assert(s2.drop_last() =~= s1);
    assert(s3.drop_last() =~= s2);
    assert(s4.drop_last() =~= s3);
    assert(s5.drop_last() =~= s4);
    assert(s6.drop_last() =~= s5);
    assert(s7.drop_last() =~= s6);
    assert(all.drop_last() =~= s7);
    assert(dedup(s1) =~= seq![5u64]);
    assert(dedup(s2) =~= seq![5u64, 1u64]);
    assert(!seq![5u64, 1u64].contains(2u64));
    assert(dedup(s3) =~= seq![5u64, 1u64, 2u64]);
    assert(seq![5u64, 1u64, 2u64][1] == 1u64);
    assert(dedup(s4) =~= seq![5u64, 1u64, 2u64]);
    assert(!seq![5u64, 1u64, 2u64].contains(8u64));
    assert(dedup(s5) =~= seq![5u64, 1u64, 2u64, 8u64]);
    assert(!seq![5u64, 1u64, 2u64, 8u64].contains(3u64));
    assert(dedup(s6) =~= seq![5u64, 1u64, 2u64, 8u64, 3u64]);
    assert(seq![5u64, 1u64, 2u64, 8u64, 3u64][1] == 1u64);
    assert(dedup(s7) =~= seq![5u64, 1u64, 2u64, 8u64, 3u64]);
    assert(seq![5u64, 1u64, 2u64, 8u64, 3u64][2] == 2u64);
    assert(dedup(all) =~= seq![5u64, 1u64, 2u64, 8u64, 3u64]);
    let ids = seq![5u64, 1u64, 2u64, 8u64, 3u64];
    assert(ids.drop_last() =~= seq![5u64, 1u64, 2u64, 8u64]);
    assert(seq![5u64, 1u64, 2u64, 8u64].drop_last() =~= seq![5u64, 1u64, 2u64]);
    assert(seq![5u64, 1u64, 2u64].drop_last() =~= seq![5u64, 1u64]);
    assert(seq![5u64, 1u64].drop_last() =~= seq![5u64]);
    assert(seq![5u64].drop_last() =~= Seq::<KindValue>::empty());
    reveal_with_fuel(pack, 6);
    assert(pack(7u64, ids) == ((((7u64 | (5u64 << 8u64)) | (1u64 << 16u64)) | (2u64 << 24u64)) | (8u64 << 32u64)) | (3u64 << 40u64));
}

proof fn lemma_dedup_distinct(s: Seq<KindValue>)
    requires
        forall|i: int, j: int| 0 <= i < j < s.len() ==> s[i] != s[j],
    ensures
        dedup(s) == s,
    decreases s.len(),
{
    if s.len() > 0 {
        let d = s.drop_last();
        assert forall|i: int, j: int| 0 <= i < j < d.len() implies d[i] != d[j] by {
            assert(d[i] == s[i] && d[j] == s[j]);
        }
        lemma_dedup_distinct(d);
        assert(!d.contains(s.last())) by {
            if d.contains(s.last()) {
                let k = choose|k: int| 0 <= k < d.len() && d[k] == s.last();
                assert(s[k] == s[s.len() - 1]);
            }
        }
        assert(d.push(s.last()) =~= s);
    }
}

/// Two kinds with the same eight levels are the same.
proof fn lemma_levels_equal(x: KindValue, y: KindValue)
    requires
        forall|t: int| 0 <= t < 8 ==> #[trigger] kind_level(x, t) == kind_level(y, t),
    ensures
        x == y,
{
    assert(kind_level(x, 0) == kind_level(y, 0) && kind_level(x, 1) == kind_level(y, 1) && kind_level(x, 2) == kind_level(y, 2)
        && kind_level(x, 3) == kind_level(y, 3) && kind_level(x, 4) == kind_level(y, 4) && kind_level(x, 5) == kind_level(y, 5)
        && kind_level(x, 6) == kind_level(y, 6) && kind_level(x, 7) == kind_level(y, 7));
    assert(x == y) by (bit_vector)
        requires
            (x >> 0u64) & 255u64 == (y >> 0u64) & 255u64,
            (x >> 8u64) & 255u64 == (y >> 8u64) & 255u64,
            (x >> 16u64) & 255u64 == (y >> 16u64) & 255u64,
            (x >> 24u64) & 255u64 == (y >> 24u64) & 255u64,
            (x >> 32u64) & 255u64 == (y >> 32u64) & 255u64,
            (x >> 40u64) & 255u64 == (y >> 40u64) & 255u64,
            (x >> 48u64) & 255u64 == (y >> 48u64) & 255u64,
            (x >> 56u64) & 255u64 == (y >> 56u64) & 255u64,
    ;
}

/// A kind whose own id is `id`, followed by the chain of the one base `b`
/// (whose ids are all different), is the kind made from `id` and `b`.
proof fn lemma_one_base(id: u8, b: KindValue, chain: Seq<KindValue>, k: KindValue)
    requires
        0 < chain.len() < 7,
        forall|i: int| 0 <= i < chain.len() ==> #[trigger] kind_level(b, i) == chain[i] && chain[i] != 0 && chain[i] < 256,
        kind_level(b, chain.len() as int) == 0,
        forall|i: int, j: int| 0 <= i < j < chain.len() ==> chain[i] != chain[j],
        kind_level(k, 0) == id as u64,
        forall|i: int| 0 <= i < chain.len() ==> #[trigger] kind_level(k, i + 1) == chain[i],
        forall|t: int| chain.len() < t < 8 ==> #[trigger] kind_level(k, t) == 0,
    ensures
        k == spec_make_kind(id, seq![b]),
{
    let n = chain.len();
    assert(chain_nonzero_below(b, n as int));
    lemma_chain_of(b, n);
    assert(chain_from(b, 0) =~= chain);
    assert(seq![b].drop_last() =~= Seq::<KindValue>::empty());
    reveal_with_fuel(base_ids, 2);
    assert(base_ids(seq![b]) =~= chain);
    lemma_dedup_distinct(chain);
    let low = (id as u64) & 255u64;
    assert(low == id as u64) by (bit_vector)
        requires
            low == (id as u64) & 255u64,
    ;
    let made = spec_make_kind(id, seq![b]);
    assert(made == pack(low, chain));
    assert forall|t: int| 0 <= t < 8 implies #[trigger] kind_level(made, t) == kind_level(k, t) by {
        lemma_pack_levels(low, chain, t);
        if 1 <= t <= n {
            assert(kind_level(k, (t - 1) + 1) == chain[t - 1]);
        }
    }
    lemma_levels_equal(made, k);
}

/// Each kind constant derived from one base is the kind made from its id
/// and that base (and `ELEMENT` is made from its id alone).
pub proof fn law_kind_constants_made()
    ensures
        ELEMENT == spec_make_kind(1, seq![]),
        NAMESPACE == spec_make_kind(2, seq![ELEMENT]),
        VERTEX == spec_make_kind(3, seq![ELEMENT]),
        CONSTRAINT == spec_make_kind(4, seq![ELEMENT]),
        BEHAVIOR == spec_make_kind(5, seq![ELEMENT]),
        CONCURRENT == spec_make_kind(6, seq![BEHAVIOR]),
        REGION == spec_make_kind(9, seq![ELEMENT]),
        TRANSITION == spec_make_kind(10, seq![ELEMENT]),
        INTERNAL == spec_make_kind(11, seq![TRANSITION]),
        EXTERNAL == spec_make_kind(12, seq![TRANSITION]),
        LOCAL == spec_make_kind(13, seq![TRANSITION]),
        SELF == spec_make_kind(14, seq![TRANSITION]),
        EVENT == spec_make_kind(15, seq![ELEMENT]),
        COMPLETION_EVENT == spec_make_kind(16, seq![EVENT]),
        ERROR_EVENT == spec_make_kind(17, seq![COMPLETION_EVENT]),
        TIME_EVENT == spec_make_kind(18, seq![EVENT]),
        PSEUDOSTATE == spec_make_kind(19, seq![VERTEX]),
        INITIAL == spec_make_kind(20, seq![PSEUDOSTATE]),
        FINAL_STATE == spec_make_kind(21, seq![STATE]),
        CHOICE == spec_make_kind(22, seq![PSEUDOSTATE]),
        CUSTOM == spec_make_kind(23, seq![ELEMENT]),
        OPERATION == spec_make_kind(24, seq![BEHAVIOR]),
        CALL_EVENT == spec_make_kind(25, seq![EVENT]),
        DEEP_HISTORY == spec_make_kind(26, seq![PSEUDOSTATE]),
        SHALLOW_HISTORY == spec_make_kind(27, seq![PSEUDOSTATE]),
        ENTRY_POINT == spec_make_kind(28, seq![PSEUDOSTATE]),
        EXIT_POINT == spec_make_kind(29, seq![PSEUDOSTATE]),
        SUBMACHINE_STATE == spec_make_kind(30, seq![STATE]),
        CHANGE_EVENT == spec_make_kind(31, seq![EVENT]),
        OBSERVATION == spec_make_kind(32, seq![BEHAVIOR]),
{
    assert(spec_make_kind(1, seq![]) == pack(1u64 & 255u64, dedup(base_ids(seq![]))));
    assert(1u64 & 255u64 == 1u64) by (bit_vector);
    assert(((1u64 >> 0u64) & 255u64) == 1u64
        && ((1u64 >> 8u64) & 255u64) == 0u64
        && ((258u64 >> 0u64) & 255u64) == 2u64
        && ((258u64 >> 8u64) & 255u64) == 1u64
        && ((258u64 >> 16u64) & 255u64) == 0u64
        && ((258u64 >> 24u64) & 255u64) == 0u64
        && ((258u64 >> 32u64) & 255u64) == 0u64
        && ((258u64 >> 40u64) & 255u64) == 0u64
        && ((258u64 >> 48u64) & 255u64) == 0u64
        && ((258u64 >> 56u64) & 255u64) == 0u64
        && ((1u64 >> 0u64) & 255u64) == 1u64
        && ((1u64 >> 8u64) & 255u64) == 0u64
        && ((259u64 >> 0u64) & 255u64) == 3u64
        && ((259u64 >> 8u64) & 255u64) == 1u64
        && ((259u64 >> 16u64) & 255u64) == 0u64
        && ((259u64 >> 24u64) & 255u64) == 0u64
        && ((259u64 >> 32u64) & 255u64) == 0u64
        && ((259u64 >> 40u64) & 255u64) == 0u64
        && ((259u64 >> 48u64) & 255u64) == 0u64
        && ((259u64 >> 56u64) & 255u64) == 0u64
        && ((1u64 >> 0u64) & 255u64) == 1u64
        && ((1u64 >> 8u64) & 255u64) == 0u64
        && ((260u64 >> 0u64) & 255u64) == 4u64
        && ((260u64 >> 8u64) & 255u64) == 1u64
        && ((260u64 >> 16u64) & 255u64) == 0u64
        && ((260u64 >> 24u64) & 255u64) == 0u64
        && ((260u64 >> 32u64) & 255u64) == 0u64
        && ((260u64 >> 40u64) & 255u64) == 0u64
        && ((260u64 >> 48u64) & 255u64) == 0u64
        && ((260u64 >> 56u64) & 255u64) == 0u64
        && ((1u64 >> 0u64) & 255u64) == 1u64
        && ((1u64 >> 8u64) & 255u64) == 0u64
        && ((261u64 >> 0u64) & 255u64) == 5u64
        && ((261u64 >> 8u64) & 255u64) == 1u64
        && ((261u64 >> 16u64) & 255u64) == 0u64
        && ((261u64 >> 24u64) & 255u64) == 0u64
        && ((261u64 >> 32u64) & 255u64) == 0u64
        && ((261u64 >> 40u64) & 255u64) == 0u64
        && ((261u64 >> 48u64) & 255u64) == 0u64
        && ((261u64 >> 56u64) & 255u64) == 0u64
        && ((261u64 >> 0u64) & 255u64) == 5u64
        && ((261u64 >> 8u64) & 255u64) == 1u64
        && ((261u64 >> 16u64) & 255u64) == 0u64
        && ((66822u64 >> 0u64) & 255u64) == 6u64
        && ((66822u64 >> 8u64) & 255u64) == 5u64
        && ((66822u64 >> 16u64) & 255u64) == 1u64
        && ((66822u64 >> 24u64) & 255u64) == 0u64
        && ((66822u64 >> 32u64) & 255u64) == 0u64
        && ((66822u64 >> 40u64) & 255u64) == 0u64
        && ((66822u64 >> 48u64) & 255u64) == 0u64
        && ((66822u64 >> 56u64) & 255u64) == 0u64) by (bit_vector);
    assert(kind_level(ELEMENT, 0) == 1 && kind_level(ELEMENT, 1) == 0);
    assert(kind_level(NAMESPACE, 0) == 2 && kind_level(NAMESPACE, 1) == 1 && kind_level(NAMESPACE, 2) == 0 && kind_level(NAMESPACE, 3) == 0 && kind_level(NAMESPACE, 4) == 0 && kind_level(NAMESPACE, 5) == 0 && kind_level(NAMESPACE, 6) == 0 && kind_level(NAMESPACE, 7) == 0);
    lemma_one_base(2, ELEMENT, seq![1u64], NAMESPACE);
    assert(kind_level(ELEMENT, 0) == 1 && kind_level(ELEMENT, 1) == 0);
    assert(kind_level(VERTEX, 0) == 3 && kind_level(VERTEX, 1) == 1 && kind_level(VERTEX, 2) == 0 && kind_level(VERTEX, 3) == 0 && kind_level(VERTEX, 4) == 0 && kind_level(VERTEX, 5) == 0 && kind_level(VERTEX, 6) == 0 && kind_level(VERTEX, 7) == 0);
    lemma_one_base(3, ELEMENT, seq![1u64], VERTEX);
    assert(kind_level(ELEMENT, 0) == 1 && kind_level(ELEMENT, 1) == 0);
    assert(kind_level(CONSTRAINT, 0) == 4 && kind_level(CONSTRAINT, 1) == 1 && kind_level(CONSTRAINT, 2) == 0 && kind_level(CONSTRAINT, 3) == 0 && kind_level(CONSTRAINT, 4) == 0 && kind_level(CONSTRAINT, 5) == 0 && kind_level(CONSTRAINT, 6) == 0 && kind_level(CONSTRAINT, 7) == 0);
    lemma_one_base(4, ELEMENT, seq![1u64], CONSTRAINT);
    assert(kind_level(ELEMENT, 0) == 1 && kind_level(ELEMENT, 1) == 0);
    assert(kind_level(BEHAVIOR, 0) == 5 && kind_level(BEHAVIOR, 1) == 1 && kind_level(BEHAVIOR, 2) == 0 && kind_level(BEHAVIOR, 3) == 0 && kind_level(BEHAVIOR, 4) == 0 && kind_level(BEHAVIOR, 5) == 0 && kind_level(BEHAVIOR, 6) == 0 && kind_level(BEHAVIOR, 7) == 0);
    lemma_one_base(5, ELEMENT, seq![1u64], BEHAVIOR);
    assert(kind_level(BEHAVIOR, 0) == 5 && kind_level(BEHAVIOR, 1) == 1 && kind_level(BEHAVIOR, 2) == 0);
    assert(kind_level(CONCURRENT, 0) == 6 && kind_level(CONCURRENT, 1) == 5 && kind_level(CONCURRENT, 2) == 1 && kind_level(CONCURRENT, 3) == 0 && kind_level(CONCURRENT, 4) == 0 && kind_level(CONCURRENT, 5) == 0 && kind_level(CONCURRENT, 6) == 0 && kind_level(CONCURRENT, 7) == 0);
    lemma_one_base(6, BEHAVIOR, seq![5u64, 1u64], CONCURRENT);
    assert(((1u64 >> 0u64) & 255u64) == 1u64
        && ((1u64 >> 8u64) & 255u64) == 0u64
        && ((265u64 >> 0u64) & 255u64) == 9u64
        && ((265u64 >> 8u64) & 255u64) == 1u64
        && ((265u64 >> 16u64) & 255u64) == 0u64
        && ((265u64 >> 24u64) & 255u64) == 0u64
        && ((265u64 >> 32u64) & 255u64) == 0u64
        && ((265u64 >> 40u64) & 255u64) == 0u64
        && ((265u64 >> 48u64) & 255u64) == 0u64
        && ((265u64 >> 56u64) & 255u64) == 0u64
        && ((1u64 >> 0u64) & 255u64) == 1u64
        && ((1u64 >> 8u64) & 255u64) == 0u64
        && ((266u64 >> 0u64) & 255u64) == 10u64
        && ((266u64 >> 8u64) & 255u64) == 1u64
        && ((266u64 >> 16u64) & 255u64) == 0u64
        && ((266u64 >> 24u64) & 255u64) == 0u64
        && ((266u64 >> 32u64) & 255u64) == 0u64
        && ((266u64 >> 40u64) & 255u64) == 0u64
        && ((266u64 >> 48u64) & 255u64) == 0u64
        && ((266u64 >> 56u64) & 255u64) == 0u64
        && ((266u64 >> 0u64) & 255u64) == 10u64
        && ((266u64 >> 8u64) & 255u64) == 1u64
        && ((266u64 >> 16u64) & 255u64) == 0u64
        && ((68107u64 >> 0u64) & 255u64) == 11u64
        && ((68107u64 >> 8u64) & 255u64) == 10u64
        && ((68107u64 >> 16u64) & 255u64) == 1u64
        && ((68107u64 >> 24u64) & 255u64) == 0u64
        && ((68107u64 >> 32u64) & 255u64) == 0u64
        && ((68107u64 >> 40u64) & 255u64) == 0u64
        && ((68107u64 >> 48u64) & 255u64) == 0u64
        && ((68107u64 >> 56u64) & 255u64) == 0u64
        && ((266u64 >> 0u64) & 255u64) == 10u64
        && ((266u64 >> 8u64) & 255u64) == 1u64
        && ((266u64 >> 16u64) & 255u64) == 0u64
        && ((68108u64 >> 0u64) & 255u64) == 12u64
        && ((68108u64 >> 8u64) & 255u64) == 10u64
        && ((68108u64 >> 16u64) & 255u64) == 1u64
        && ((68108u64 >> 24u64) & 255u64) == 0u64
        && ((68108u64 >> 32u64) & 255u64) == 0u64
        && ((68108u64 >> 40u64) & 255u64) == 0u64
        && ((68108u64 >> 48u64) & 255u64) == 0u64
        && ((68108u64 >> 56u64) & 255u64) == 0u64
        && ((266u64 >> 0u64) & 255u64) == 10u64
        && ((266u64 >> 8u64) & 255u64) == 1u64
        && ((266u64 >> 16u64) & 255u64) == 0u64
        && ((68109u64 >> 0u64) & 255u64) == 13u64
        && ((68109u64 >> 8u64) & 255u64) == 10u64
        && ((68109u64 >> 16u64) & 255u64) == 1u64
        && ((68109u64 >> 24u64) & 255u64) == 0u64
        && ((68109u64 >> 32u64) & 255u64) == 0u64
        && ((68109u64 >> 40u64) & 255u64) == 0u64
        && ((68109u64 >> 48u64) & 255u64) == 0u64
        && ((68109u64 >> 56u64) & 255u64) == 0u64) by (bit_vector);
    assert(kind_level(ELEMENT, 0) == 1 && kind_level(ELEMENT, 1) == 0);
    assert(kind_level(REGION, 0) == 9 && kind_level(REGION, 1) == 1 && kind_level(REGION, 2) == 0 && kind_level(REGION, 3) == 0 && kind_level(REGION, 4) == 0 && kind_level(REGION, 5) == 0 && kind_level(REGION, 6) == 0 && kind_level(REGION, 7) == 0);
    lemma_one_base(9, ELEMENT, seq![1u64], REGION);
    assert(kind_level(ELEMENT, 0) == 1 && kind_level(ELEMENT, 1) == 0);
    assert(kind_level(TRANSITION, 0) == 10 && kind_level(TRANSITION, 1) == 1 && kind_level(TRANSITION, 2) == 0 && kind_level(TRANSITION, 3) == 0 && kind_level(TRANSITION, 4) == 0 && kind_level(TRANSITION, 5) == 0 && kind_level(TRANSITION, 6) == 0 && kind_level(TRANSITION, 7) == 0);
    lemma_one_base(10, ELEMENT, seq![1u64], TRANSITION);
    assert(kind_level(TRANSITION, 0) == 10 && kind_level(TRANSITION, 1) == 1 && kind_level(TRANSITION, 2) == 0);
    assert(kind_level(INTERNAL, 0) == 11 && kind_level(INTERNAL, 1) == 10 && kind_level(INTERNAL, 2) == 1 && kind_level(INTERNAL, 3) == 0 && kind_level(INTERNAL, 4) == 0 && kind_level(INTERNAL, 5) == 0 && kind_level(INTERNAL, 6) == 0 && kind_level(INTERNAL, 7) == 0);
    lemma_one_base(11, TRANSITION, seq![10u64, 1u64], INTERNAL);
    assert(kind_level(TRANSITION, 0) == 10 && kind_level(TRANSITION, 1) == 1 && kind_level(TRANSITION, 2) == 0);
    assert(kind_level(EXTERNAL, 0) == 12 && kind_level(EXTERNAL, 1) == 10 && kind_level(EXTERNAL, 2) == 1 && kind_level(EXTERNAL, 3) == 0 && kind_level(EXTERNAL, 4) == 0 && kind_level(EXTERNAL, 5) == 0 && kind_level(EXTERNAL, 6) == 0 && kind_level(EXTERNAL, 7) == 0);
    lemma_one_base(12, TRANSITION, seq![10u64, 1u64], EXTERNAL);
    assert(kind_level(TRANSITION, 0) == 10 && kind_level(TRANSITION, 1) == 1 && kind_level(TRANSITION, 2) == 0);
    assert(kind_level(LOCAL, 0) == 13 && kind_level(LOCAL, 1) == 10 && kind_level(LOCAL, 2) == 1 && kind_level(LOCAL, 3) == 0 && kind_level(LOCAL, 4) == 0 && kind_level(LOCAL, 5) == 0 && kind_level(LOCAL, 6) == 0 && kind_level(LOCAL, 7) == 0);
    lemma_one_base(13, TRANSITION, seq![10u64, 1u64], LOCAL);
    assert(((266u64 >> 0u64) & 255u64) == 10u64
        && ((266u64 >> 8u64) & 255u64) == 1u64
        && ((266u64 >> 16u64) & 255u64) == 0u64
        && ((68110u64 >> 0u64) & 255u64) == 14u64
        && ((68110u64 >> 8u64) & 255u64) == 10u64
        && ((68110u64 >> 16u64) & 255u64) == 1u64
        && ((68110u64 >> 24u64) & 255u64) == 0u64
        && ((68110u64 >> 32u64) & 255u64) == 0u64
        && ((68110u64 >> 40u64) & 255u64) == 0u64
        && ((68110u64 >> 48u64) & 255u64) == 0u64
        && ((68110u64 >> 56u64) & 255u64) == 0u64
        && ((1u64 >> 0u64) & 255u64) == 1u64
        && ((1u64 >> 8u64) & 255u64) == 0u64
        && ((271u64 >> 0u64) & 255u64) == 15u64
        && ((271u64 >> 8u64) & 255u64) == 1u64
        && ((271u64 >> 16u64) & 255u64) == 0u64
        && ((271u64 >> 24u64) & 255u64) == 0u64
        && ((271u64 >> 32u64) & 255u64) == 0u64
        && ((271u64 >> 40u64) & 255u64) == 0u64
        && ((271u64 >> 48u64) & 255u64) == 0u64
        && ((271u64 >> 56u64) & 255u64) == 0u64
        && ((271u64 >> 0u64) & 255u64) == 15u64
        && ((271u64 >> 8u64) & 255u64) == 1u64
        && ((271u64 >> 16u64) & 255u64) == 0u64
        && ((69392u64 >> 0u64) & 255u64) == 16u64
        && ((69392u64 >> 8u64) & 255u64) == 15u64
        && ((69392u64 >> 16u64) & 255u64) == 1u64
        && ((69392u64 >> 24u64) & 255u64) == 0u64
        && ((69392u64 >> 32u64) & 255u64) == 0u64
        && ((69392u64 >> 40u64) & 255u64) == 0u64
        && ((69392u64 >> 48u64) & 255u64) == 0u64
        && ((69392u64 >> 56u64) & 255u64) == 0u64
        && ((69392u64 >> 0u64) & 255u64) == 16u64
        && ((69392u64 >> 8u64) & 255u64) == 15u64
        && ((69392u64 >> 16u64) & 255u64) == 1u64
        && ((69392u64 >> 24u64) & 255u64) == 0u64
        && ((17764369u64 >> 0u64) & 255u64) == 17u64
        && ((17764369u64 >> 8u64) & 255u64) == 16u64
        && ((17764369u64 >> 16u64) & 255u64) == 15u64
        && ((17764369u64 >> 24u64) & 255u64) == 1u64
        && ((17764369u64 >> 32u64) & 255u64) == 0u64
        && ((17764369u64 >> 40u64) & 255u64) == 0u64
        && ((17764369u64 >> 48u64) & 255u64) == 0u64
        && ((17764369u64 >> 56u64) & 255u64) == 0u64
        && ((271u64 >> 0u64) & 255u64) == 15u64
        && ((271u64 >> 8u64) & 255u64) == 1u64
        && ((271u64 >> 16u64) & 255u64) == 0u64
        && ((69394u64 >> 0u64) & 255u64) == 18u64
        && ((69394u64 >> 8u64) & 255u64) == 15u64
        && ((69394u64 >> 16u64) & 255u64) == 1u64
        && ((69394u64 >> 24u64) & 255u64) == 0u64
        && ((69394u64 >> 32u64) & 255u64) == 0u64
        && ((69394u64 >> 40u64) & 255u64) == 0u64
        && ((69394u64 >> 48u64) & 255u64) == 0u64
        && ((69394u64 >> 56u64) & 255u64) == 0u64) by (bit_vector);
    assert(kind_level(TRANSITION, 0) == 10 && kind_level(TRANSITION, 1) == 1 && kind_level(TRANSITION, 2) == 0);
    assert(kind_level(SELF, 0) == 14 && kind_level(SELF, 1) == 10 && kind_level(SELF, 2) == 1 && kind_level(SELF, 3) == 0 && kind_level(SELF, 4) == 0 && kind_level(SELF, 5) == 0 && kind_level(SELF, 6) == 0 && kind_level(SELF, 7) == 0);
    lemma_one_base(14, TRANSITION, seq![10u64, 1u64], SELF);
    assert(kind_level(ELEMENT, 0) == 1 && kind_level(ELEMENT, 1) == 0);
    assert(kind_level(EVENT, 0) == 15 && kind_level(EVENT, 1) == 1 && kind_level(EVENT, 2) == 0 && kind_level(EVENT, 3) == 0 && kind_level(EVENT, 4) == 0 && kind_level(EVENT, 5) == 0 && kind_level(EVENT, 6) == 0 && kind_level(EVENT, 7) == 0);
    lemma_one_base(15, ELEMENT, seq![1u64], EVENT);
    assert(kind_level(EVENT, 0) == 15 && kind_level(EVENT, 1) == 1 && kind_level(EVENT, 2) == 0);
    assert(kind_level(COMPLETION_EVENT, 0) == 16 && kind_level(COMPLETION_EVENT, 1) == 15 && kind_level(COMPLETION_EVENT, 2) == 1 && kind_level(COMPLETION_EVENT, 3) == 0 && kind_level(COMPLETION_EVENT, 4) == 0 && kind_level(COMPLETION_EVENT, 5) == 0 && kind_level(COMPLETION_EVENT, 6) == 0 && kind_level(COMPLETION_EVENT, 7) == 0);
    lemma_one_base(16, EVENT, seq![15u64, 1u64], COMPLETION_EVENT);
    assert(kind_level(COMPLETION_EVENT, 0) == 16 && kind_level(COMPLETION_EVENT, 1) == 15 && kind_level(COMPLETION_EVENT, 2) == 1 && kind_level(COMPLETION_EVENT, 3) == 0);
    assert(kind_level(ERROR_EVENT, 0) == 17 && kind_level(ERROR_EVENT, 1) == 16 && kind_level(ERROR_EVENT, 2) == 15 && kind_level(ERROR_EVENT, 3) == 1 && kind_level(ERROR_EVENT, 4) == 0 && kind_level(ERROR_EVENT, 5) == 0 && kind_level(ERROR_EVENT, 6) == 0 && kind_level(ERROR_EVENT, 7) == 0);
    lemma_one_base(17, COMPLETION_EVENT, seq![16u64, 15u64, 1u64], ERROR_EVENT);
    assert(kind_level(EVENT, 0) == 15 && kind_level(EVENT, 1) == 1 && kind_level(EVENT, 2) == 0);
    assert(kind_level(TIME_EVENT, 0) == 18 && kind_level(TIME_EVENT, 1) == 15 && kind_level(TIME_EVENT, 2) == 1 && kind_level(TIME_EVENT, 3) == 0 && kind_level(TIME_EVENT, 4) == 0 && kind_level(TIME_EVENT, 5) == 0 && kind_level(TIME_EVENT, 6) == 0 && kind_level(TIME_EVENT, 7) == 0);
    lemma_one_base(18, EVENT, seq![15u64, 1u64], TIME_EVENT);
    assert(((259u64 >> 0u64) & 255u64) == 3u64
        && ((259u64 >> 8u64) & 255u64) == 1u64
        && ((259u64 >> 16u64) & 255u64) == 0u64
        && ((66323u64 >> 0u64) & 255u64) == 19u64
        && ((66323u64 >> 8u64) & 255u64) == 3u64
        && ((66323u64 >> 16u64) & 255u64) == 1u64
        && ((66323u64 >> 24u64) & 255u64) == 0u64
        && ((66323u64 >> 32u64) & 255u64) == 0u64
        && ((66323u64 >> 40u64) & 255u64) == 0u64
        && ((66323u64 >> 48u64) & 255u64) == 0u64
        && ((66323u64 >> 56u64) & 255u64) == 0u64
        && ((66323u64 >> 0u64) & 255u64) == 19u64
        && ((66323u64 >> 8u64) & 255u64) == 3u64
        && ((66323u64 >> 16u64) & 255u64) == 1u64
        && ((66323u64 >> 24u64) & 255u64) == 0u64
        && ((16978708u64 >> 0u64) & 255u64) == 20u64
        && ((16978708u64 >> 8u64) & 255u64) == 19u64
        && ((16978708u64 >> 16u64) & 255u64) == 3u64
        && ((16978708u64 >> 24u64) & 255u64) == 1u64
        && ((16978708u64 >> 32u64) & 255u64) == 0u64
        && ((16978708u64 >> 40u64) & 255u64) == 0u64
        && ((16978708u64 >> 48u64) & 255u64) == 0u64
        && ((16978708u64 >> 56u64) & 255u64) == 0u64
        && ((33620744u64 >> 0u64) & 255u64) == 8u64
        && ((33620744u64 >> 8u64) & 255u64) == 3u64
        && ((33620744u64 >> 16u64) & 255u64) == 1u64
        && ((33620744u64 >> 24u64) & 255u64) == 2u64
        && ((33620744u64 >> 32u64) & 255u64) == 0u64
        && ((8606910485u64 >> 0u64) & 255u64) == 21u64
        && ((8606910485u64 >> 8u64) & 255u64) == 8u64
        && ((8606910485u64 >> 16u64) & 255u64) == 3u64
        && ((8606910485u64 >> 24u64) & 255u64) == 1u64
        && ((8606910485u64 >> 32u64) & 255u64) == 2u64
        && ((8606910485u64 >> 40u64) & 255u64) == 0u64
        && ((8606910485u64 >> 48u64) & 255u64) == 0u64
        && ((8606910485u64 >> 56u64) & 255u64) == 0u64
        && ((66323u64 >> 0u64) & 255u64) == 19u64
        && ((66323u64 >> 8u64) & 255u64) == 3u64
        && ((66323u64 >> 16u64) & 255u64) == 1u64
        && ((66323u64 >> 24u64) & 255u64) == 0u64
        && ((16978710u64 >> 0u64) & 255u64) == 22u64
        && ((16978710u64 >> 8u64) & 255u64) == 19u64
        && ((16978710u64 >> 16u64) & 255u64) == 3u64
        && ((16978710u64 >> 24u64) & 255u64) == 1u64
        && ((16978710u64 >> 32u64) & 255u64) == 0u64
        && ((16978710u64 >> 40u64) & 255u64) == 0u64
        && ((16978710u64 >> 48u64) & 255u64) == 0u64
        && ((16978710u64 >> 56u64) & 255u64) == 0u64
        && ((1u64 >> 0u64) & 255u64) == 1u64
        && ((1u64 >> 8u64) & 255u64) == 0u64
        && ((279u64 >> 0u64) & 255u64) == 23u64
        && ((279u64 >> 8u64) & 255u64) == 1u64
        && ((279u64 >> 16u64) & 255u64) == 0u64
        && ((279u64 >> 24u64) & 255u64) == 0u64
        && ((279u64 >> 32u64) & 255u64) == 0u64
        && ((279u64 >> 40u64) & 255u64) == 0u64
        && ((279u64 >> 48u64) & 255u64) == 0u64
        && ((279u64 >> 56u64) & 255u64) == 0u64) by (bit_vector);
    assert(kind_level(VERTEX, 0) == 3 && kind_level(VERTEX, 1) == 1 && kind_level(VERTEX, 2) == 0);
    assert(kind_level(PSEUDOSTATE, 0) == 19 && kind_level(PSEUDOSTATE, 1) == 3 && kind_level(PSEUDOSTATE, 2) == 1 && kind_level(PSEUDOSTATE, 3) == 0 && kind_level(PSEUDOSTATE, 4) == 0 && kind_level(PSEUDOSTATE, 5) == 0 && kind_level(PSEUDOSTATE, 6) == 0 && kind_level(PSEUDOSTATE, 7) == 0);
    lemma_one_base(19, VERTEX, seq![3u64, 1u64], PSEUDOSTATE);
    assert(kind_level(PSEUDOSTATE, 0) == 19 && kind_level(PSEUDOSTATE, 1) == 3 && kind_level(PSEUDOSTATE, 2) == 1 && kind_level(PSEUDOSTATE, 3) == 0);
    assert(kind_level(INITIAL, 0) == 20 && kind_level(INITIAL, 1) == 19 && kind_level(INITIAL, 2) == 3 && kind_level(INITIAL, 3) == 1 && kind_level(INITIAL, 4) == 0 && kind_level(INITIAL, 5) == 0 && kind_level(INITIAL, 6) == 0 && kind_level(INITIAL, 7) == 0);
    lemma_one_base(20, PSEUDOSTATE, seq![19u64, 3u64, 1u64], INITIAL);
    assert(kind_level(STATE, 0) == 8 && kind_level(STATE, 1) == 3 && kind_level(STATE, 2) == 1 && kind_level(STATE, 3) == 2 && kind_level(STATE, 4) == 0);
    assert(kind_level(FINAL_STATE, 0) == 21 && kind_level(FINAL_STATE, 1) == 8 && kind_level(FINAL_STATE, 2) == 3 && kind_level(FINAL_STATE, 3) == 1 && kind_level(FINAL_STATE, 4) == 2 && kind_level(FINAL_STATE, 5) == 0 && kind_level(FINAL_STATE, 6) == 0 && kind_level(FINAL_STATE, 7) == 0);
    lemma_one_base(21, STATE, seq![8u64, 3u64, 1u64, 2u64], FINAL_STATE);
    assert(kind_level(PSEUDOSTATE, 0) == 19 && kind_level(PSEUDOSTATE, 1) == 3 && kind_level(PSEUDOSTATE, 2) == 1 && kind_level(PSEUDOSTATE, 3) == 0);
    assert(kind_level(CHOICE, 0) == 22 && kind_level(CHOICE, 1) == 19 && kind_level(CHOICE, 2) == 3 && kind_level(CHOICE, 3) == 1 && kind_level(CHOICE, 4) == 0 && kind_level(CHOICE, 5) == 0 && kind_level(CHOICE, 6) == 0 && kind_level(CHOICE, 7) == 0);
    lemma_one_base(22, PSEUDOSTATE, seq![19u64, 3u64, 1u64], CHOICE);
    assert(kind_level(ELEMENT, 0) == 1 && kind_level(ELEMENT, 1) == 0);
    assert(kind_level(CUSTOM, 0) == 23 && kind_level(CUSTOM, 1) == 1 && kind_level(CUSTOM, 2) == 0 && kind_level(CUSTOM, 3) == 0 && kind_level(CUSTOM, 4) == 0 && kind_level(CUSTOM, 5) == 0 && kind_level(CUSTOM, 6) == 0 && kind_level(CUSTOM, 7) == 0);
    lemma_one_base(23, ELEMENT, seq![1u64], CUSTOM);
    assert(((261u64 >> 0u64) & 255u64) == 5u64
        && ((261u64 >> 8u64) & 255u64) == 1u64
        && ((261u64 >> 16u64) & 255u64) == 0u64
        && ((66840u64 >> 0u64) & 255u64) == 24u64
        && ((66840u64 >> 8u64) & 255u64) == 5u64
        && ((66840u64 >> 16u64) & 255u64) == 1u64
        && ((66840u64 >> 24u64) & 255u64) == 0u64
        && ((66840u64 >> 32u64) & 255u64) == 0u64
        && ((66840u64 >> 40u64) & 255u64) == 0u64
        && ((66840u64 >> 48u64) & 255u64) == 0u64
        && ((66840u64 >> 56u64) & 255u64) == 0u64
        && ((271u64 >> 0u64) & 255u64) == 15u64
        && ((271u64 >> 8u64) & 255u64) == 1u64
        && ((271u64 >> 16u64) & 255u64) == 0u64
        && ((69401u64 >> 0u64) & 255u64) == 25u64
        && ((69401u64 >> 8u64) & 255u64) == 15u64
        && ((69401u64 >> 16u64) & 255u64) == 1u64
        && ((69401u64 >> 24u64) & 255u64) == 0u64
        && ((69401u64 >> 32u64) & 255u64) == 0u64
        && ((69401u64 >> 40u64) & 255u64) == 0u64
        && ((69401u64 >> 48u64) & 255u64) == 0u64
        && ((69401u64 >> 56u64) & 255u64) == 0u64
        && ((66323u64 >> 0u64) & 255u64) == 19u64
        && ((66323u64 >> 8u64) & 255u64) == 3u64
        && ((66323u64 >> 16u64) & 255u64) == 1u64
        && ((66323u64 >> 24u64) & 255u64) == 0u64
        && ((16978714u64 >> 0u64) & 255u64) == 26u64
        && ((16978714u64 >> 8u64) & 255u64) == 19u64
        && ((16978714u64 >> 16u64) & 255u64) == 3u64
        && ((16978714u64 >> 24u64) & 255u64) == 1u64
        && ((16978714u64 >> 32u64) & 255u64) == 0u64
        && ((16978714u64 >> 40u64) & 255u64) == 0u64
        && ((16978714u64 >> 48u64) & 255u64) == 0u64
        && ((16978714u64 >> 56u64) & 255u64) == 0u64
        && ((66323u64 >> 0u64) & 255u64) == 19u64
        && ((66323u64 >> 8u64) & 255u64) == 3u64
        && ((66323u64 >> 16u64) & 255u64) == 1u64
        && ((66323u64 >> 24u64) & 255u64) == 0u64
        && ((16978715u64 >> 0u64) & 255u64) == 27u64
        && ((16978715u64 >> 8u64) & 255u64) == 19u64
        && ((16978715u64 >> 16u64) & 255u64) == 3u64
        && ((16978715u64 >> 24u64) & 255u64) == 1u64
        && ((16978715u64 >> 32u64) & 255u64) == 0u64
        && ((16978715u64 >> 40u64) & 255u64) == 0u64
        && ((16978715u64 >> 48u64) & 255u64) == 0u64
        && ((16978715u64 >> 56u64) & 255u64) == 0u64
        && ((66323u64 >> 0u64) & 255u64) == 19u64
        && ((66323u64 >> 8u64) & 255u64) == 3u64
        && ((66323u64 >> 16u64) & 255u64) == 1u64
        && ((66323u64 >> 24u64) & 255u64) == 0u64
        && ((16978716u64 >> 0u64) & 255u64) == 28u64
        && ((16978716u64 >> 8u64) & 255u64) == 19u64
        && ((16978716u64 >> 16u64) & 255u64) == 3u64
        && ((16978716u64 >> 24u64) & 255u64) == 1u64
        && ((16978716u64 >> 32u64) & 255u64) == 0u64
        && ((16978716u64 >> 40u64) & 255u64) == 0u64
        && ((16978716u64 >> 48u64) & 255u64) == 0u64
        && ((16978716u64 >> 56u64) & 255u64) == 0u64) by (bit_vector);
    assert(kind_level(BEHAVIOR, 0) == 5 && kind_level(BEHAVIOR, 1) == 1 && kind_level(BEHAVIOR, 2) == 0);
    assert(kind_level(OPERATION, 0) == 24 && kind_level(OPERATION, 1) == 5 && kind_level(OPERATION, 2) == 1 && kind_level(OPERATION, 3) == 0 && kind_level(OPERATION, 4) == 0 && kind_level(OPERATION, 5) == 0 && kind_level(OPERATION, 6) == 0 && kind_level(OPERATION, 7) == 0);
    lemma_one_base(24, BEHAVIOR, seq![5u64, 1u64], OPERATION);
    assert(kind_level(EVENT, 0) == 15 && kind_level(EVENT, 1) == 1 && kind_level(EVENT, 2) == 0);
    assert(kind_level(CALL_EVENT, 0) == 25 && kind_level(CALL_EVENT, 1) == 15 && kind_level(CALL_EVENT, 2) == 1 && kind_level(CALL_EVENT, 3) == 0 && kind_level(CALL_EVENT, 4) == 0 && kind_level(CALL_EVENT, 5) == 0 && kind_level(CALL_EVENT, 6) == 0 && kind_level(CALL_EVENT, 7) == 0);
    lemma_one_base(25, EVENT, seq![15u64, 1u64], CALL_EVENT);
    assert(kind_level(PSEUDOSTATE, 0) == 19 && kind_level(PSEUDOSTATE, 1) == 3 && kind_level(PSEUDOSTATE, 2) == 1 && kind_level(PSEUDOSTATE, 3) == 0);
    assert(kind_level(DEEP_HISTORY, 0) == 26 && kind_level(DEEP_HISTORY, 1) == 19 && kind_level(DEEP_HISTORY, 2) == 3 && kind_level(DEEP_HISTORY, 3) == 1 && kind_level(DEEP_HISTORY, 4) == 0 && kind_level(DEEP_HISTORY, 5) == 0 && kind_level(DEEP_HISTORY, 6) == 0 && kind_level(DEEP_HISTORY, 7) == 0);
    lemma_one_base(26, PSEUDOSTATE, seq![19u64, 3u64, 1u64], DEEP_HISTORY);
    assert(kind_level(PSEUDOSTATE, 0) == 19 && kind_level(PSEUDOSTATE, 1) == 3 && kind_level(PSEUDOSTATE, 2) == 1 && kind_level(PSEUDOSTATE, 3) == 0);
    assert(kind_level(SHALLOW_HISTORY, 0) == 27 && kind_level(SHALLOW_HISTORY, 1) == 19 && kind_level(SHALLOW_HISTORY, 2) == 3 && kind_level(SHALLOW_HISTORY, 3) == 1 && kind_level(SHALLOW_HISTORY, 4) == 0 && kind_level(SHALLOW_HISTORY, 5) == 0 && kind_level(SHALLOW_HISTORY, 6) == 0 && kind_level(SHALLOW_HISTORY, 7) == 0);
    lemma_one_base(27, PSEUDOSTATE, seq![19u64, 3u64, 1u64], SHALLOW_HISTORY);
    assert(kind_level(PSEUDOSTATE, 0) == 19 && kind_level(PSEUDOSTATE, 1) == 3 && kind_level(PSEUDOSTATE, 2) == 1 && kind_level(PSEUDOSTATE, 3) == 0);
    assert(kind_level(ENTRY_POINT, 0) == 28 && kind_level(ENTRY_POINT, 1) == 19 && kind_level(ENTRY_POINT, 2) == 3 && kind_level(ENTRY_POINT, 3) == 1 && kind_level(ENTRY_POINT, 4) == 0 && kind_level(ENTRY_POINT, 5) == 0 && kind_level(ENTRY_POINT, 6) == 0 && kind_level(ENTRY_POINT, 7) == 0);
    lemma_one_base(28, PSEUDOSTATE, seq![19u64, 3u64, 1u64], ENTRY_POINT);
    assert(((66323u64 >> 0u64) & 255u64) == 19u64
        && ((66323u64 >> 8u64) & 255u64) == 3u64
        && ((66323u64 >> 16u64) & 255u64) == 1u64
        && ((66323u64 >> 24u64) & 255u64) == 0u64
        && ((16978717u64 >> 0u64) & 255u64) == 29u64
        && ((16978717u64 >> 8u64) & 255u64) == 19u64
        && ((16978717u64 >> 16u64) & 255u64) == 3u64
        && ((16978717u64 >> 24u64) & 255u64) == 1u64
        && ((16978717u64 >> 32u64) & 255u64) == 0u64
        && ((16978717u64 >> 40u64) & 255u64) == 0u64
        && ((16978717u64 >> 48u64) & 255u64) == 0u64
        && ((16978717u64 >> 56u64) & 255u64) == 0u64
        && ((33620744u64 >> 0u64) & 255u64) == 8u64
        && ((33620744u64 >> 8u64) & 255u64) == 3u64
        && ((33620744u64 >> 16u64) & 255u64) == 1u64
        && ((33620744u64 >> 24u64) & 255u64) == 2u64
        && ((33620744u64 >> 32u64) & 255u64) == 0u64
        && ((8606910494u64 >> 0u64) & 255u64) == 30u64
        && ((8606910494u64 >> 8u64) & 255u64) == 8u64
        && ((8606910494u64 >> 16u64) & 255u64) == 3u64
        && ((8606910494u64 >> 24u64) & 255u64) == 1u64
        && ((8606910494u64 >> 32u64) & 255u64) == 2u64
        && ((8606910494u64 >> 40u64) & 255u64) == 0u64
        && ((8606910494u64 >> 48u64) & 255u64) == 0u64
        && ((8606910494u64 >> 56u64) & 255u64) == 0u64
        && ((271u64 >> 0u64) & 255u64) == 15u64
        && ((271u64 >> 8u64) & 255u64) == 1u64
        && ((271u64 >> 16u64) & 255u64) == 0u64
        && ((69407u64 >> 0u64) & 255u64) == 31u64
        && ((69407u64 >> 8u64) & 255u64) == 15u64
        && ((69407u64 >> 16u64) & 255u64) == 1u64
        && ((69407u64 >> 24u64) & 255u64) == 0u64
        && ((69407u64 >> 32u64) & 255u64) == 0u64
        && ((69407u64 >> 40u64) & 255u64) == 0u64
        && ((69407u64 >> 48u64) & 255u64) == 0u64
        && ((69407u64 >> 56u64) & 255u64) == 0u64
        && ((261u64 >> 0u64) & 255u64) == 5u64
        && ((261u64 >> 8u64) & 255u64) == 1u64
        && ((261u64 >> 16u64) & 255u64) == 0u64
        && ((66848u64 >> 0u64) & 255u64) == 32u64
        && ((66848u64 >> 8u64) & 255u64) == 5u64
        && ((66848u64 >> 16u64) & 255u64) == 1u64
        && ((66848u64 >> 24u64) & 255u64) == 0u64
        && ((66848u64 >> 32u64) & 255u64) == 0u64
        && ((66848u64 >> 40u64) & 255u64) == 0u64
        && ((66848u64 >> 48u64) & 255u64) == 0u64
        && ((66848u64 >> 56u64) & 255u64) == 0u64) by (bit_vector);
    assert(kind_level(PSEUDOSTATE, 0) == 19 && kind_level(PSEUDOSTATE, 1) == 3 && kind_level(PSEUDOSTATE, 2) == 1 && kind_level(PSEUDOSTATE, 3) == 0);
    assert(kind_level(EXIT_POINT, 0) == 29 && kind_level(EXIT_POINT, 1) == 19 && kind_level(EXIT_POINT, 2) == 3 && kind_level(EXIT_POINT, 3) == 1 && kind_level(EXIT_POINT, 4) == 0 && kind_level(EXIT_POINT, 5) == 0 && kind_level(EXIT_POINT, 6) == 0 && kind_level(EXIT_POINT, 7) == 0);
    lemma_one_base(29, PSEUDOSTATE, seq![19u64, 3u64, 1u64], EXIT_POINT);
    assert(kind_level(STATE, 0) == 8 && kind_level(STATE, 1) == 3 && kind_level(STATE, 2) == 1 && kind_level(STATE, 3) == 2 && kind_level(STATE, 4) == 0);
    assert(kind_level(SUBMACHINE_STATE, 0) == 30 && kind_level(SUBMACHINE_STATE, 1) == 8 && kind_level(SUBMACHINE_STATE, 2) == 3 && kind_level(SUBMACHINE_STATE, 3) == 1 && kind_level(SUBMACHINE_STATE, 4) == 2 && kind_level(SUBMACHINE_STATE, 5) == 0 && kind_level(SUBMACHINE_STATE, 6) == 0 && kind_level(SUBMACHINE_STATE, 7) == 0);
    lemma_one_base(30, STATE, seq![8u64, 3u64, 1u64, 2u64], SUBMACHINE_STATE);
    assert(kind_level(EVENT, 0) == 15 && kind_level(EVENT, 1) == 1 && kind_level(EVENT, 2) == 0);
    assert(kind_level(CHANGE_EVENT, 0) == 31 && kind_level(CHANGE_EVENT, 1) == 15 && kind_level(CHANGE_EVENT, 2) == 1 && kind_level(CHANGE_EVENT, 3) == 0 && kind_level(CHANGE_EVENT, 4) == 0 && kind_level(CHANGE_EVENT, 5) == 0 && kind_level(CHANGE_EVENT, 6) == 0 && kind_level(CHANGE_EVENT, 7) == 0);
    lemma_one_base(31, EVENT, seq![15u64, 1u64], CHANGE_EVENT);
    assert(kind_level(BEHAVIOR, 0) == 5 && kind_level(BEHAVIOR, 1) == 1 && kind_level(BEHAVIOR, 2) == 0);
    assert(kind_level(OBSERVATION, 0) == 32 && kind_level(OBSERVATION, 1) == 5 && kind_level(OBSERVATION, 2) == 1 && kind_level(OBSERVATION, 3) == 0 && kind_level(OBSERVATION, 4) == 0 && kind_level(OBSERVATION, 5) == 0 && kind_level(OBSERVATION, 6) == 0 && kind_level(OBSERVATION, 7) == 0);
    lemma_one_base(32, BEHAVIOR, seq![5u64, 1u64], OBSERVATION);
}

/// A state machine is a state.
pub proof fn law_state_machine_is_state()
    ensures
        spec_is_kind(STATE_MACHINE, STATE),
{
    let k = STATE_MACHINE;
    assert(((k >> 0u64) & 255u64) == 7u64 && ((k >> 8u64) & 255u64) == 5u64 && ((k >> 16u64) & 255u64) == 1u64
        && ((k >> 24u64) & 255u64) == 2u64 && ((k >> 32u64) & 255u64) == 8u64 && (STATE & 255u64) == 8u64) by (bit_vector)
        requires
            k == 3332928242951u64,
    ;
    assert(kind_level(k, 0) == 7 && kind_level(k, 1) == 5 && kind_level(k, 2) == 1 && kind_level(k, 3) == 2);
    assert(kind_level(k, 4) == STATE & 255u64);
    assert(chain_nonzero_below(k, 4));
}

/// Whether `kind` is, or derives from, `target`.
pub fn is_kind(kind: KindValue, target: KindValue) -> (r: bool)
    ensures
        r == spec_is_kind(kind, target),
{
    let target_id = kind_id(target);
    if kind == target_id {
        return true;
    }
    let mut i: usize = 0;
    while i < DEPTH_MAX
        invariant
            0 <= i <= 8,
            target_id == target & 255u64,
            kind != target_id,
            forall|j: int| 0 <= j < i ==> #[trigger] kind_level(kind, j) != target_id,
            chain_nonzero_below(kind, i as int),
        decreases 8 - i,
    {
        let current_id = kind_id(kind >> ((8 * i) as u64));
        assert(current_id == kind_level(kind, i as int)) by {
            assert((kind >> ((8 * i) as u64)) >> 0u64 == kind >> ((8 * i) as u64)) by (bit_vector);
        }
        if current_id == target_id {
            return true;
        }
        if current_id == 0 {
            assert forall|k: int|
                0 <= k < 8 && #[trigger] kind_level(kind, k) == target & 255u64 implies !chain_nonzero_below(
                kind,
                k,
            ) by {
                assert(k > i);
                assert(kind_level(kind, i as int) == 0);
            }
            return false;
        }
        i += 1;
    }
    false
}

pub const NULL: KindValue = 0;

pub const ELEMENT: KindValue = 1;

pub const NAMESPACE: KindValue = 258;

pub const VERTEX: KindValue = 259;

pub const CONSTRAINT: KindValue = 260;

pub const BEHAVIOR: KindValue = 261;

pub const CONCURRENT: KindValue = 66822;

/// A machine: a behavior and a namespace, and a state.
pub const STATE_MACHINE: KindValue = 3332928242951;

pub const STATE: KindValue = 33620744;

pub const REGION: KindValue = 265;

pub const TRANSITION: KindValue = 266;

pub const INTERNAL: KindValue = 68107;

pub const EXTERNAL: KindValue = 68108;

pub const LOCAL: KindValue = 68109;

pub const SELF: KindValue = 68110;

pub const EVENT: KindValue = 271;

pub const COMPLETION_EVENT: KindValue = 69392;

pub const ERROR_EVENT: KindValue = 17764369;

pub const TIME_EVENT: KindValue = 69394;

pub const PSEUDOSTATE: KindValue = 66323;

pub const INITIAL: KindValue = 16978708;

pub const FINAL_STATE: KindValue = 8606910485;

pub const CHOICE: KindValue = 16978710;

pub const CUSTOM: KindValue = 279;

pub const OPERATION: KindValue = 66840;

pub const CALL_EVENT: KindValue = 69401;

pub const DEEP_HISTORY: KindValue = 16978714;

pub const SHALLOW_HISTORY: KindValue = 16978715;

/// A pseudostate through which a submachine is entered.
pub const ENTRY_POINT: KindValue = 16978716;

/// A pseudostate through which a submachine is left.
pub const EXIT_POINT: KindValue = 16978717;

/// A state that holds another machine.
pub const SUBMACHINE_STATE: KindValue = 8606910494;

/// The event of an attribute changing.
pub const CHANGE_EVENT: KindValue = 69407;

/// A behavior that reports what it observes.
pub const OBSERVATION: KindValue = 66848;

pub const NAMED_ELEMENT: KindValue = ELEMENT;

pub const SEQUENTIAL: KindValue = VERTEX;

pub const ATTRIBUTE: KindValue = ELEMENT;

pub const MODEL: KindValue = STATE_MACHINE;

pub const JUNCTION: KindValue = PSEUDOSTATE;

} // verus!

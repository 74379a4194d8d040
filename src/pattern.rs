use vstd::prelude::*;

verus! {

/// The ways in which offsets and minor indices can fail to describe a sparsity pattern.
#[derive(Clone, Copy, Debug, PartialEq, Eq, Structural)]
pub enum SparsityPatternFormatError {
    /// The offset array does not hold exactly `major_dim + 1` entries.
    InvalidOffsetArrayLength,
    /// The first offset is not zero, or the last one differs from the number of minor indices.
    InvalidOffsetFirstLast,
    /// Some offset is larger than the one that follows it.
    NonmonotonicOffsets,
    /// Some minor index is not below the minor dimension.
    MinorIndexOutOfBounds,
    /// A minor index appears twice in one lane.
    DuplicateEntry,
    /// The minor indices of some lane are out of order.
    NonmonotonicMinorIndices,
}

/// Every offset is at most the next one.
pub open spec fn offsets_monotone(offsets: Seq<usize>) -> bool {
    forall|i: int| 0 <= i < offsets.len() - 1 ==> #[trigger] offsets[i] <= offsets[i + 1]
}

/// The offsets have the right length, start at zero, end at `nnz` and never decrease.
pub open spec fn offsets_ok(major: nat, offsets: Seq<usize>, nnz: nat) -> bool {
    &&& offsets.len() == major + 1
    &&& offsets[0] == 0
    &&& offsets[major as int] == nnz
    &&& offsets_monotone(offsets)
}

/// Storage slot `p` belongs to lane `i`.
pub open spec fn in_lane_of(offsets: Seq<usize>, major: nat, i: int, p: int) -> bool {
    0 <= i < major && offsets[i] <= p < offsets[i + 1]
}

/// Storage slot `p` comes after another slot of its own lane.
pub open spec fn follows_in_lane(offsets: Seq<usize>, major: nat, p: int) -> bool {
    exists|i: int| 0 <= i < major && #[trigger] offsets[i] < p < offsets[i + 1]
}

/// Slot `p` holds an index in bounds, larger than the one before it in the same lane.
pub open spec fn slot_ok(minor: nat, offsets: Seq<usize>, major: nat, indices: Seq<usize>, p: int) -> bool {
    &&& indices[p] < minor
    &&& follows_in_lane(offsets, major, p) ==> indices[p - 1] < indices[p]
}

/// The four arrays describe a valid compressed sparsity pattern.
pub open spec fn pattern_valid(major: nat, minor: nat, offsets: Seq<usize>, indices: Seq<usize>) -> bool {
    &&& offsets_ok(major, offsets, indices.len())
    &&& forall|p: int| 0 <= p < indices.len() ==> #[trigger] slot_ok(minor, offsets, major, indices, p)
}

/// The error reported for the first slot `p` that is not in order.
pub open spec fn slot_error(minor: nat, indices: Seq<usize>, p: int) -> SparsityPatternFormatError {
    if indices[p] >= minor {
        SparsityPatternFormatError::MinorIndexOutOfBounds
    } else if indices[p - 1] > indices[p] {
        SparsityPatternFormatError::NonmonotonicMinorIndices
    } else {
        SparsityPatternFormatError::DuplicateEntry
    }
}

/// Offsets that never decrease between neighbours never decrease at all.
pub proof fn lemma_offsets_ordered(offsets: Seq<usize>)
    requires
        offsets_monotone(offsets),
    ensures
        forall|a: int, b: int| 0 <= a <= b < offsets.len() ==> offsets[a] <= offsets[b],
{
    assert forall|a: int, b: int| 0 <= a <= b < offsets.len() implies offsets[a] <= offsets[b] by {
        lemma_offsets_ordered_from(offsets, a, b);
    }
}

proof fn lemma_offsets_ordered_from(offsets: Seq<usize>, a: int, b: int)
    requires
        offsets_monotone(offsets),
        0 <= a <= b < offsets.len(),
    ensures
        offsets[a] <= offsets[b],
    decreases b - a,
{
    if a < b {
        lemma_offsets_ordered_from(offsets, a, b - 1);
        assert(offsets[b - 1] <= offsets[b]);
    }
}

/// Within a lane, a slot follows another one exactly when it is not the lane's first slot.
proof fn lemma_follows_iff(offsets: Seq<usize>, major: nat, i: int, p: int)
    requires
        offsets.len() == major + 1,
        offsets_monotone(offsets),
        in_lane_of(offsets, major, i, p),
    ensures
        follows_in_lane(offsets, major, p) <==> offsets[i] < p,
{
    lemma_offsets_ordered(offsets);
    if follows_in_lane(offsets, major, p) {
        let k = choose|k: int| 0 <= k < major && #[trigger] offsets[k] < p < offsets[k + 1];
        if k < i {
            assert(offsets[k + 1] <= offsets[i]);
        } else if k > i {
            assert(offsets[i + 1] <= offsets[k]);
        }
    }
    if offsets[i] < p {
        assert(offsets[i] < p < offsets[i + 1]);
    }
}

/// In a valid pattern the minor indices strictly increase along each lane.
proof fn lemma_valid_lane_increasing(
    major: nat,
    minor: nat,
    offsets: Seq<usize>,
    indices: Seq<usize>,
    i: int,
    p: int,
    q: int,
)
    requires
        pattern_valid(major, minor, offsets, indices),
        in_lane_of(offsets, major, i, p),
        in_lane_of(offsets, major, i, q),
        p < q,
    ensures
        indices[p] < indices[q],
    decreases q - p,
{
    lemma_offsets_ordered(offsets);
    assert(offsets[i + 1] <= offsets[major as int]);
    lemma_follows_iff(offsets, major, i, q);
    assert(slot_ok(minor, offsets, major, indices, q));
    if p < q - 1 {
        lemma_valid_lane_increasing(major, minor, offsets, indices, i, p, q - 1);
    }
}

/// The lane, not before lane `k`, that holds slot `p`.
proof fn lane_at_or_after(offsets: Seq<usize>, major: nat, p: int, k: int) -> (i: int)
    requires
        offsets.len() == major + 1,
        offsets_monotone(offsets),
        0 <= k <= major,
        offsets[k] <= p < offsets[major as int],
    ensures
        in_lane_of(offsets, major, i, p),
    decreases major - k,
{
    if p < offsets[k + 1] {
        k
    } else {
        lane_at_or_after(offsets, major, p, k + 1)
    }
}

/// Offsets that do not start at zero, a minor index repeated within a lane, and a minor index
/// equal to the minor dimension each make the arrays invalid, so `try_from` rejects them.
pub proof fn lemma_rejected_patterns(major: nat, minor: nat, offsets: Seq<usize>, indices: Seq<usize>)
    ensures
        offsets.len() > 0 && offsets[0] != 0 ==> !pattern_valid(major, minor, offsets, indices),
        (exists|i: int, p: int, q: int|
            #[trigger] in_lane_of(offsets, major, i, p) && #[trigger] in_lane_of(offsets, major, i, q)
                && p != q && indices[p] == indices[q]) ==> !pattern_valid(major, minor, offsets, indices),
        (exists|p: int| 0 <= p < indices.len() && #[trigger] indices[p] == minor) ==> !pattern_valid(
            major,
            minor,
            offsets,
            indices,
        ),
{
    if pattern_valid(major, minor, offsets, indices) {
        assert forall|i: int, p: int, q: int|
            #[trigger] in_lane_of(offsets, major, i, p) && #[trigger] in_lane_of(offsets, major, i, q)
                && p != q implies indices[p] != indices[q] by {
            if p < q {
                lemma_valid_lane_increasing(major, minor, offsets, indices, i, p, q);
            } else {
                lemma_valid_lane_increasing(major, minor, offsets, indices, i, q, p);
            }
        }
        assert forall|p: int| 0 <= p < indices.len() implies #[trigger] indices[p] != minor by {
            assert(slot_ok(minor, offsets, major, indices, p));
        }
    }
}

/// Slot `p` is the first slot that is not in order.
pub open spec fn first_bad_slot(minor: nat, offsets: Seq<usize>, major: nat, indices: Seq<usize>, p: int) -> bool {
    &&& 0 <= p < indices.len()
    &&& !slot_ok(minor, offsets, major, indices, p)
    &&& forall|q: int| 0 <= q < p ==> #[trigger] slot_ok(minor, offsets, major, indices, q)
}

fn check_monotone(offsets: &Vec<usize>) -> (r: bool)
    ensures
        r == offsets_monotone(offsets@),
{
    if offsets.len() == 0 {
        return true;
    }
    let mut k: usize = 0;
    while k < offsets.len() - 1
        invariant
            offsets.len() > 0,
            k <= offsets.len() - 1,
            forall|i: int| 0 <= i < k ==> #[trigger] offsets@[i] <= offsets@[i + 1],
        decreases offsets.len() - k,
    {
        if offsets[k] > offsets[k + 1] {
            return false;
        }
        k = k + 1;
    }
    true
}

/// Checks every slot in storage order and reports the first one that is not in order.
fn check_lanes(major_dim: usize, minor_dim: usize, offsets: &Vec<usize>, indices: &Vec<usize>) -> (r:
    Result<(), SparsityPatternFormatError>)
    requires
        offsets_ok(major_dim as nat, offsets@, indices@.len()),
    ensures
        r is Ok <==> forall|p: int|
            0 <= p < indices@.len() ==> #[trigger] slot_ok(minor_dim as nat, offsets@, major_dim as nat, indices@, p),
        r is Err ==> exists|p: int|
            first_bad_slot(minor_dim as nat, offsets@, major_dim as nat, indices@, p)
                && r == Err::<(), SparsityPatternFormatError>(slot_error(minor_dim as nat, indices@, p)),
{
    let ghost offs = offsets@;
    let ghost ind = indices@;
    let mut lane: usize = 0;
    while lane < major_dim
        invariant
            offsets_ok(major_dim as nat, offs, ind.len()),
            offs == offsets@,
            ind == indices@,
            lane <= major_dim,
            forall|q: int|
                0 <= q < offs[lane as int] ==> #[trigger] slot_ok(minor_dim as nat, offs, major_dim as nat, ind, q),
        decreases major_dim - lane,
    {
        let start = offsets[lane];
        let end = offsets[lane + 1];
        proof {
            lemma_offsets_ordered_from(offs, lane + 1, major_dim as int);
        }
        let mut p: usize = start;
        while p < end
            invariant
                offsets.len() == major_dim + 1,
                offsets_monotone(offs),
                offs == offsets@,
                ind == indices@,
                lane < major_dim,
                start == offs[lane as int],
                end == offs[lane + 1],
                end <= ind.len(),
                start <= p <= end,
                forall|q: int|
                    0 <= q < p ==> #[trigger] slot_ok(minor_dim as nat, offs, major_dim as nat, ind, q),
            decreases end - p,
        {
            proof {
                lemma_follows_iff(offs, major_dim as nat, lane as int, p as int);
            }
            let next = indices[p];
            if next >= minor_dim {
                assert(first_bad_slot(minor_dim as nat, offs, major_dim as nat, ind, p as int));
                return Err(SparsityPatternFormatError::MinorIndexOutOfBounds);
            }
            if p > start {
                let prev = indices[p - 1];
                if prev > next {
                    assert(first_bad_slot(minor_dim as nat, offs, major_dim as nat, ind, p as int));
                    return Err(SparsityPatternFormatError::NonmonotonicMinorIndices);
                } else if prev == next {
                    assert(first_bad_slot(minor_dim as nat, offs, major_dim as nat, ind, p as int));
                    return Err(SparsityPatternFormatError::DuplicateEntry);
                }
            }
            assert(slot_ok(minor_dim as nat, offs, major_dim as nat, ind, p as int));
            p = p + 1;
        }
        lane = lane + 1;
    }
    Ok(())
}

/// An immutable, validated compressed index structure shared by CSR and CSC matrices.
///
/// Lane `i` holds the minor indices `minor_indices[major_offsets[i]..major_offsets[i + 1]]`,
/// strictly increasing and below `minor_dim`.
pub struct SparsityPattern {
    major_dim: usize,
    minor_dim: usize,
    major_offsets: Vec<usize>,
    minor_indices: Vec<usize>,
}

impl SparsityPattern {
    pub closed spec fn major(&self) -> nat {
        self.major_dim as nat
    }

    pub closed spec fn minor(&self) -> nat {
        self.minor_dim as nat
    }

    pub closed spec fn offsets(&self) -> Seq<usize> {
        self.major_offsets@
    }

    pub closed spec fn indices(&self) -> Seq<usize> {
        self.minor_indices@
    }

    /// The arrays satisfy every validity condition; `try_from` establishes it.
    pub open spec fn wf(&self) -> bool {
        pattern_valid(self.major(), self.minor(), self.offsets(), self.indices())
    }

    /// The number of stored positions.
    pub open spec fn nnz_spec(&self) -> nat {
        self.indices().len()
    }

    /// Storage slot `p` belongs to lane `i`.
    pub open spec fn in_lane(&self, i: int, p: int) -> bool {
        in_lane_of(self.offsets(), self.major(), i, p)
    }

    /// Position `(i, j)` (major, minor) is stored.
    pub open spec fn contains(&self, i: int, j: int) -> bool {
        exists|p: int| #[trigger] self.in_lane(i, p) && self.indices()[p] == j
    }

    /// The storage slot of a stored position.
    pub open spec fn slot_of(&self, i: int, j: int) -> int {
        choose|p: int| #[trigger] self.in_lane(i, p) && self.indices()[p] == j
    }

    /// Every slot of lane `i` is the slot of the position it stores.
    pub proof fn lemma_slot_of(&self, i: int, p: int)
        requires
            self.wf(),
            self.in_lane(i, p),
        ensures
            self.contains(i, self.indices()[p] as int),
            self.slot_of(i, self.indices()[p] as int) == p,
            0 <= p < self.nnz_spec(),
    {
        self.lemma_lanes_sorted();
        let j = self.indices()[p] as int;
        assert(self.in_lane(i, p) && self.indices()[p] == j);
        let q = self.slot_of(i, j);
        assert(self.in_lane(i, q) && self.indices()[q] == j);
    }

    /// Minor indices strictly increase along every lane, and lanes stay inside the index array.
    pub proof fn lemma_lanes_sorted(&self)
        requires
            self.wf(),
        ensures
            forall|i: int, p: int, q: int|
                #![trigger self.in_lane(i, p), self.in_lane(i, q)]
                self.in_lane(i, p) && self.in_lane(i, q) && p < q ==> self.indices()[p]
                    < self.indices()[q],
            forall|i: int, p: int| #[trigger] self.in_lane(i, p) ==> 0 <= p < self.nnz_spec(),
            forall|i: int, p: int| #[trigger] self.in_lane(i, p) ==> self.indices()[p] < self.minor(),
    {
        let offs = self.offsets();
        let ind = self.indices();
        lemma_offsets_ordered(offs);
        assert forall|i: int, p: int| #[trigger] self.in_lane(i, p) implies 0 <= p < self.nnz_spec()
            && ind[p] < self.minor() by {
            assert(offs[i + 1] <= offs[self.major() as int]);
            assert(slot_ok(self.minor(), offs, self.major(), ind, p));
        }
        assert forall|i: int, p: int, q: int|
            #![trigger self.in_lane(i, p), self.in_lane(i, q)]
            self.in_lane(i, p) && self.in_lane(i, q) && p < q implies ind[p] < ind[q] by {
            self.lemma_lane_increasing(i, p, q);
        }
    }

    /// Every storage slot belongs to some lane.
    pub proof fn lemma_slot_in_lane(&self, p: int)
        requires
            self.wf(),
            0 <= p < self.nnz_spec(),
        ensures
            exists|i: int| #[trigger] self.in_lane(i, p),
    {
        let i = lane_at_or_after(self.offsets(), self.major(), p, 0);
        assert(self.in_lane(i, p));
    }

    proof fn lemma_lane_increasing(&self, i: int, p: int, q: int)
        requires
            self.in_lane(i, p),
            self.in_lane(i, q),
            p < q,
            self.wf(),
        ensures
            self.indices()[p] < self.indices()[q],
    {
        lemma_valid_lane_increasing(self.major(), self.minor(), self.offsets(), self.indices(), i, p, q);
    }

    /// Builds a pattern from its offsets and minor indices, checking every validity condition.
    pub fn try_from(
        major_dim: usize,
        minor_dim: usize,
        major_offsets: Vec<usize>,
        minor_indices: Vec<usize>,
    ) -> (r: Result<SparsityPattern, SparsityPatternFormatError>)
        ensures
            major_offsets@.len() != major_dim + 1 ==> r == Err::<
                SparsityPattern,
                SparsityPatternFormatError,
            >(SparsityPatternFormatError::InvalidOffsetArrayLength),
            major_offsets@.len() == major_dim + 1 && (major_offsets@[0] != 0
                || major_offsets@[major_dim as int] != minor_indices@.len()) ==> r == Err::<
                SparsityPattern,
                SparsityPatternFormatError,
            >(SparsityPatternFormatError::InvalidOffsetFirstLast),
            major_offsets@.len() == major_dim + 1 && major_offsets@[0] == 0
                && major_offsets@[major_dim as int] == minor_indices@.len() && !offsets_monotone(
                major_offsets@,
            ) ==> r == Err::<SparsityPattern, SparsityPatternFormatError>(
                SparsityPatternFormatError::NonmonotonicOffsets,
            ),
            offsets_ok(major_dim as nat, major_offsets@, minor_indices@.len()) ==> (r is Ok
                <==> pattern_valid(major_dim as nat, minor_dim as nat, major_offsets@, minor_indices@)),
            offsets_ok(major_dim as nat, major_offsets@, minor_indices@.len()) && r is Err ==> exists|p: int|
                first_bad_slot(minor_dim as nat, major_offsets@, major_dim as nat, minor_indices@, p)
                    && r == Err::<SparsityPattern, SparsityPatternFormatError>(
                    slot_error(minor_dim as nat, minor_indices@, p),
                ),
            r matches Ok(pat) ==> pat.wf() && pat.major() == major_dim && pat.minor() == minor_dim
                && pat.offsets() == major_offsets@ && pat.indices() == minor_indices@,
    {
        if major_offsets.len() == 0 || major_offsets.len() - 1 != major_dim {
            return Err(SparsityPatternFormatError::InvalidOffsetArrayLength);
        }
        if major_offsets[0] != 0 || major_offsets[major_dim] != minor_indices.len() {
            return Err(SparsityPatternFormatError::InvalidOffsetFirstLast);
        }
        if !check_monotone(&major_offsets) {
            return Err(SparsityPatternFormatError::NonmonotonicOffsets);
        }
        match check_lanes(major_dim, minor_dim, &major_offsets, &minor_indices) {
            Err(e) => Err(e),
            Ok(()) => Ok(SparsityPattern { major_dim, minor_dim, major_offsets, minor_indices }),
        }
    }


    /// The number of lanes.
    pub fn major_dim(&self) -> (r: usize)
        ensures
            r == self.major(),
    {
        self.major_dim
    }

    /// The extent of the minor dimension.
    pub fn minor_dim(&self) -> (r: usize)
        ensures
            r == self.minor(),
    {
        self.minor_dim
    }

    /// The number of stored positions.
    pub fn nnz(&self) -> (r: usize)
        ensures
            r == self.nnz_spec(),
    {
        self.minor_indices.len()
    }

    /// The offset array, of length `major_dim + 1`.
    pub fn major_offsets(&self) -> (r: &Vec<usize>)
        ensures
            r@ == self.offsets(),
    {
        &self.major_offsets
    }

    /// The minor indices of all lanes, one lane after the other.
    pub fn minor_indices(&self) -> (r: &Vec<usize>)
        ensures
            r@ == self.indices(),
    {
        &self.minor_indices
    }

    /// The storage range `start..end` of lane `i`.
    pub fn lane_bounds(&self, i: usize) -> (r: (usize, usize))
        requires
            self.wf(),
            i < self.major(),
        ensures
            r.0 == self.offsets()[i as int],
            r.1 == self.offsets()[i + 1],
            r.0 <= r.1 <= self.nnz_spec(),
    {
        proof {
                lemma_offsets_ordered(self.offsets());
        }
        (self.major_offsets[i], self.major_offsets[i + 1])
    }

    /// The minor indices stored in lane `i`.
    pub fn lane(&self, i: usize) -> (r: &[usize])
        requires
            self.wf(),
            i < self.major(),
        ensures
            r@ == self.indices().subrange(self.offsets()[i as int] as int, self.offsets()[i + 1] as int),
    {
        let (start, end) = self.lane_bounds(i);
        vstd::slice::slice_subrange(self.minor_indices.as_slice(), start, end)
    }

    /// The storage slot of position `(major, minor)`, found by binary search within the lane;
    /// `None` when the position is not stored.
    pub fn get_entry_offset(&self, major: usize, minor: usize) -> (r: Option<usize>)
        requires
            self.wf(),
        ensures
            r matches Some(p) ==> self.in_lane(major as int, p as int) && self.indices()[p as int]
                == minor,
            r is None ==> !self.contains(major as int, minor as int),
    {
        if major >= self.major_dim {
            return None;
        }
        proof {
            self.lemma_lanes_sorted();
        }
        let (start, end) = self.lane_bounds(major);
        let mut lo: usize = start;
        let mut hi: usize = end;
        while lo < hi
            invariant
                start == self.offsets()[major as int],
                end == self.offsets()[major + 1],
                major < self.major(),
                start <= lo <= hi <= end,
                end <= self.nnz_spec(),
                self.minor_indices@ == self.indices(),
                forall|p: int| start <= p < lo ==> #[trigger] self.indices()[p] < minor,
                forall|p: int| hi <= p < end ==> #[trigger] self.indices()[p] > minor,
                forall|i: int, p: int, q: int|
                    #![trigger self.in_lane(i, p), self.in_lane(i, q)]
                    self.in_lane(i, p) && self.in_lane(i, q) && p < q ==> self.indices()[p]
                        < self.indices()[q],
            decreases hi - lo,
        {
            let mid = lo + (hi - lo) / 2;
            let v = self.minor_indices[mid];
            if v == minor {
                return Some(mid);
            } else if v < minor {
                assert forall|p: int| start <= p < mid + 1 implies #[trigger] self.indices()[p]
                    < minor by {
                    if p < mid {
                        assert(self.in_lane(major as int, p) && self.in_lane(major as int, mid as int));
                    }
                }
                lo = mid + 1;
            } else {
                assert forall|p: int| mid <= p < end implies #[trigger] self.indices()[p]
                    > minor by {
                    if p > mid {
                        assert(self.in_lane(major as int, p) && self.in_lane(major as int, mid as int));
                    }
                }
                hi = mid;
            }
        }
        assert forall|p: int| #[trigger] self.in_lane(major as int, p) implies self.indices()[p]
            != minor by {
            assert(start <= p < end);
        }
        None
    }
}

} // verus!

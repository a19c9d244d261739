//! Lifetime regions: over which program points a reference must stay valid,
//! and the checks that keep it inside what it refers to.

use vstd::prelude::*;
use crate::violation::Violation;

verus! {

/// A span of program points.
#[derive(Clone, Copy, Debug, PartialEq, Eq, Structural)]
pub enum Region {
    /// The whole run of the process: the region of data that outlives every
    /// scope, such as literal text in the program image.
    Whole,
    /// The program points from `start` to `end`, both included.
    Span { start: u64, end: u64 },
}

impl Region {
    /// A span does not end before it starts.
    pub open spec fn wf(self) -> bool {
        self matches Region::Span { start, end } ==> start <= end
    }

    /// True if every program point of `inner` is a point of `self`. The
    /// whole-of-process region contains every region, and no span contains
    /// it.
    pub open spec fn contains(self, inner: Region) -> bool {
        match (self, inner) {
            (Region::Whole, _) => true,
            (Region::Span { .. }, Region::Whole) => false,
            (Region::Span { start: s0, end: e0 }, Region::Span { start: s1, end: e1 }) => s0
                <= s1 && e1 <= e0,
        }
    }

    /// True if a reference with region `self` may be derived from something
    /// that is valid over `bound`: the whole-of-process region is exempt
    /// from the check, every other region must lie inside `bound`.
    pub open spec fn admissible_in(self, bound: Region) -> bool {
        self is Whole || bound.contains(self)
    }

    /// Decides `contains`.
    pub fn encloses(&self, inner: &Region) -> (r: bool)
        ensures
            r == self.contains(*inner),
    {
        match (*self, *inner) {
            (Region::Whole, _) => true,
            (Region::Span { .. }, Region::Whole) => false,
            (Region::Span { start: s0, end: e0 }, Region::Span { start: s1, end: e1 }) => s0
                <= s1 && e1 <= e0,
        }
    }
}

/// The last program point among the point of creation and the first `n`
/// uses.
pub open spec fn last_use(created: u64, uses: Seq<u64>, n: nat) -> u64
    decreases n,
{
    if n == 0 {
        created
    } else {
        let before = last_use(created, uses, (n - 1) as nat);
        if uses[n - 1] > before {
            uses[n - 1]
        } else {
            before
        }
    }
}

/// The region that elision gives a set of input regions: the region of the
/// input that an annotation ties the result to, and without an annotation
/// the one region that all inputs share. There is none where the annotation
/// names no input, where there is no input, and where two inputs differ.
pub open spec fn elided_output(inputs: Seq<Region>, tie: Option<usize>) -> Option<Region> {
    match tie {
        Some(i) => if i < inputs.len() {
            Some(inputs[i as int])
        } else {
            None
        },
        None => if inputs.len() > 0 && (forall|i: int|
            0 <= i < inputs.len() ==> (#[trigger] inputs[i]) == inputs[0]) {
            Some(inputs[0])
        } else {
            None
        },
    }
}

/// The minimal region of a reference: from the point of its creation to its
/// last use. Uses that lie before the creation do not extend it.
pub fn minimal_region(created: u64, uses: &Vec<u64>) -> (r: Region)
    ensures
        r == (Region::Span { start: created, end: last_use(created, uses@, uses@.len()) }),
        r.wf(),
        r.contains(Region::Span { start: created, end: created }),
        forall|i: int|
            0 <= i < uses@.len() && uses@[i] >= created ==> r.contains(
                Region::Span { start: #[trigger] uses@[i], end: uses@[i] },
            ),
        r->end == created || exists|i: int| 0 <= i < uses@.len() && #[trigger] uses@[i] == r->end,
{
    let mut end: u64 = created;
    let mut i: usize = 0;
    while i < uses.len()
        invariant
            i <= uses@.len(),
            end == last_use(created, uses@, i as nat),
            end >= created,
            forall|k: int| 0 <= k < i ==> uses@[k] <= end,
        decreases uses@.len() - i,
    {
        if uses[i] > end {
            end = uses[i];
        }
        i = i + 1;
    }
    proof {
        lemma_last_use_is_greatest(created, uses@, uses@.len());
    }
    Region::Span { start: created, end }
}

/// Checks that a reference valid over `reference` does not outlive a
/// referent that is live over `referent`.
pub fn check_contained(reference: Region, referent: Region) -> (r: Result<(), Violation>)
    ensures
        r is Ok <==> reference.admissible_in(referent),
        r is Err ==> r == Err::<(), Violation>(Violation::LifetimeViolation),
{
    match reference {
        Region::Whole => Ok(()),
        _ => if referent.encloses(&reference) {
            Ok(())
        } else {
            Err(Violation::LifetimeViolation)
        },
    }
}

/// Checks a returned or stored reference against the input references of a
/// definition: it is accepted if some input region contains its region, or
/// if its region is the whole of the process.
pub fn check_escape(output: Region, inputs: &Vec<Region>) -> (r: Result<(), Violation>)
    ensures
        r is Ok <==> (output is Whole || exists|i: int|
            0 <= i < inputs@.len() && (#[trigger] inputs@[i]).contains(output)),
        r is Err ==> r == Err::<(), Violation>(Violation::LifetimeViolation),
{
    match output {
        Region::Whole => {
            return Ok(());
        },
        _ => {},
    }
    let mut i: usize = 0;
    while i < inputs.len()
        invariant
            i <= inputs@.len(),
            forall|k: int| 0 <= k < i ==> !(#[trigger] inputs@[k]).contains(output),
        decreases inputs@.len() - i,
    {
        if inputs[i].encloses(&output) {
            return Ok(());
        }
        i = i + 1;
    }
    Err(Violation::LifetimeViolation)
}

/// Gives the region of the reference that a definition returns.
///
/// With an annotation that ties the result to input `i`, it is the region
/// of that input. Without one, the inputs must all have one region, which
/// is then the result's; a definition whose inputs have different regions
/// is rejected, and so is one without inputs.
pub fn resolve_output(inputs: &Vec<Region>, tie: Option<usize>) -> (r: Result<Region, Violation>)
    ensures
        match elided_output(inputs@, tie) {
            Some(region) => r == Ok::<Region, Violation>(region),
            None => r == Err::<Region, Violation>(Violation::LifetimeViolation),
        },
{
    match tie {
        Some(i) => if i < inputs.len() {
            Ok(inputs[i])
        } else {
            Err(Violation::LifetimeViolation)
        },
        None => {
            if inputs.len() == 0 {
                return Err(Violation::LifetimeViolation);
            }
            let first = inputs[0];
            let mut i: usize = 1;
            while i < inputs.len()
                invariant
                    1 <= i <= inputs@.len(),
                    tie is None,
                    first == inputs@[0],
                    forall|k: int| 0 <= k < i ==> (#[trigger] inputs@[k]) == inputs@[0],
                decreases inputs@.len() - i,
            {
                if inputs[i] != first {
                    assert(inputs@[i as int] != inputs@[0]);
                    return Err(Violation::LifetimeViolation);
                }
                i = i + 1;
            }
            Ok(first)
        },
    }
}

/// The last use is the greatest of the point of creation and the uses: no
/// use lies after it, and it is the creation or one of the uses.
pub proof fn lemma_last_use_is_greatest(created: u64, uses: Seq<u64>, n: nat)
    requires
        n <= uses.len(),
    ensures
        last_use(created, uses, n) >= created,
        forall|i: int| 0 <= i < n ==> #[trigger] uses[i] <= last_use(created, uses, n),
        last_use(created, uses, n) == created || exists|i: int|
            0 <= i < n && #[trigger] uses[i] == last_use(created, uses, n),
    decreases n,
{
    if n > 0 {
        lemma_last_use_is_greatest(created, uses, (n - 1) as nat);
        let before = last_use(created, uses, (n - 1) as nat);
        if uses[n - 1] > before {
            assert(uses[n - 1] == last_use(created, uses, n));
        } else if before != created {
            let i = choose|i: int| 0 <= i < n - 1 && #[trigger] uses[i] == before;
            assert(uses[i] == last_use(created, uses, n));
        }
    }
}

/// Containment of regions is reflexive and transitive, and the
/// whole-of-process region contains every region.
pub proof fn lemma_contains_order(a: Region, b: Region, c: Region)
    ensures
        a.contains(a),
        a.contains(b) && b.contains(c) ==> a.contains(c),
        Region::Whole.contains(a),
        a.contains(Region::Whole) ==> a is Whole,
{
}

/// A region that elision gives is the region of one of the inputs, so the
/// result is contained in an input and passes the escape check.
pub proof fn lemma_elided_is_input(inputs: Seq<Region>, tie: Option<usize>)
    requires
        elided_output(inputs, tie) is Some,
    ensures
        exists|i: int|
            0 <= i < inputs.len() && (#[trigger] inputs[i]) == elided_output(inputs, tie)->0
                && inputs[i].contains(elided_output(inputs, tie)->0),
{
    let out = elided_output(inputs, tie)->0;
    match tie {
        Some(i) => {
            assert(inputs[i as int] == out && inputs[i as int].contains(out));
        },
        None => {
            assert(inputs[0] == out && inputs[0].contains(out));
        },
    }
}

/// Without an annotation, two inputs with different regions leave the
/// result without a region.
pub proof fn lemma_differing_inputs_rejected(inputs: Seq<Region>, i: int, j: int)
    requires
        0 <= i < inputs.len(),
        0 <= j < inputs.len(),
        inputs[i] != inputs[j],
    ensures
        elided_output(inputs, None) is None,
{
}

} // verus!

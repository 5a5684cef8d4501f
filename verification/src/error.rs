//! Structural errors, and what it means to produce a list of things of
//! which each may fail.
use vstd::prelude::*;

verus! {

/// The ways in which a document can be structurally unusable.  Each of them
/// aborts the whole load: there is no partial scene.
#[derive(Clone, Copy, Debug, PartialEq, Eq, Structural)]
pub enum StructuralError {
    /// A buffer URI does not start with the supported data-URI scheme.
    UnsupportedScheme,
    /// The payload of a data URI is not valid base64.
    MalformedBase64,
    /// A byte range is not a whole number of elements.
    MisalignedBuffer,
    /// An index names no entry of the list it points into.
    IndexOutOfRange,
    /// A buffer view reaches past the end of its decoded buffer.
    RangeOutOfBounds,
    /// A vertex list is not a whole number of triangles.
    InvalidTopology,
    /// A mesh does not hold exactly one primitive.
    UnsupportedPrimitiveCount,
    /// An accessor declares an element or component type that is unknown, or
    /// one that does not fit the attribute it is used for.
    UnsupportedAccessorType,
    /// The node hierarchy below some root is deeper than the number of nodes,
    /// so a node is its own descendant.
    CyclicGraph,
}

/// A result with its value seen as the mathematical value it stands for.
pub open spec fn viewed<T: View>(r: Result<T, StructuralError>) -> Result<T::V, StructuralError> {
    match r {
        Ok(value) => Ok(value@),
        Err(e) => Err(e),
    }
}

/// A result with its value seen, through and through, as the mathematical
/// value it stands for.
pub open spec fn deeply_viewed<T: DeepView>(r: Result<T, StructuralError>) -> Result<
    T::V,
    StructuralError,
> {
    match r {
        Ok(value) => Ok(value.deep_view()),
        Err(e) => Err(e),
    }
}

/// The outcome of producing `count` items in order, each of which may fail:
/// all of them if none fails, else the failure of the first that does.
pub open spec fn collect<T>(count: nat, item: spec_fn(int) -> Result<T, StructuralError>) -> Result<
    Seq<T>,
    StructuralError,
>
    decreases count,
{
    if count == 0 {
        Ok(Seq::empty())
    } else {
        match collect((count - 1) as nat, item) {
            Err(e) => Err(e),
            Ok(items) => match item(count - 1) {
                Err(e) => Err(e),
                Ok(value) => Ok(items.push(value)),
            },
        }
    }
}

/// A failure among the first `count` items is the failure of any longer run.
pub proof fn lemma_collect_failure_persists<T>(
    count: nat,
    longer: nat,
    item: spec_fn(int) -> Result<T, StructuralError>,
)
    requires
        count <= longer,
        collect(count, item) is Err,
    ensures
        collect(longer, item) == collect(count, item),
    decreases longer,
{
    if count < longer {
        lemma_collect_failure_persists(count, (longer - 1) as nat, item);
    }
}

/// `collect` succeeds exactly when every item does, and then lists their
/// values in order.
pub proof fn lemma_collect_success<T>(
    count: nat,
    item: spec_fn(int) -> Result<T, StructuralError>,
)
    ensures
        collect(count, item) is Ok <==> forall|i: int| 0 <= i < count ==> (#[trigger] item(i)) is Ok,
        collect(count, item) matches Ok(items) ==> items.len() == count && forall|i: int|
            0 <= i < count ==> item(i) == Ok::<T, StructuralError>(#[trigger] items[i]),
    decreases count,
{
    if count > 0 {
        lemma_collect_success((count - 1) as nat, item);
        if collect((count - 1) as nat, item) is Ok && item(count - 1) is Ok {
            assert forall|i: int| 0 <= i < count implies (#[trigger] item(i)) is Ok by {
                if i < count - 1 {
                }
            }
        }
    }
}

/// `collect` fails with the failure of the first item that fails.
pub proof fn lemma_collect_failure<T>(
    count: nat,
    item: spec_fn(int) -> Result<T, StructuralError>,
)
    ensures
        collect(count, item) matches Err(e) ==> exists|first: int|
            0 <= first < count && #[trigger] item(first) == Err::<T, StructuralError>(e)
                && forall|i: int| 0 <= i < first ==> (#[trigger] item(i)) is Ok,
    decreases count,
{
    if count > 0 {
        lemma_collect_failure((count - 1) as nat, item);
        lemma_collect_success((count - 1) as nat, item);
        if collect((count - 1) as nat, item) is Ok && item(count - 1) is Err {
            assert(item(count - 1) == Err::<T, StructuralError>(collect(count, item)->Err_0));
        }
    }
}

} // verus!

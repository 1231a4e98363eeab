use vstd::prelude::*;
use core::cmp::Ordering;
use vstd::std_specs::cmp::PartialOrdSpec;
use vstd::std_specs::convert::FromSpec;

verus! {

/// The number of classes a digit label is encoded over.
pub const DIGIT_CLASSES: usize = 10;

/// Why a vector could not be decoded to a class index.
#[derive(Debug, Clone, Copy, PartialEq, Eq, Structural)]
pub enum DecodeError {
    /// There is no entry to pick a class from.
    EmptyVector,
}

/// The vector of length `width` that holds `on` at index `num` and `off`
/// everywhere else (everywhere, when `num >= width`).
pub open spec fn one_hot<T>(num: nat, width: nat, off: T, on: T) -> Seq<T> {
    Seq::new(width, |i: int| if i == num { on } else { off })
}

/// `a` compares strictly greater than `b`.
pub open spec fn greater<T: PartialOrd>(a: T, b: T) -> bool {
    a.partial_cmp_spec(&b) == Some(Ordering::Greater)
}

/// The index a left-to-right scan of the first `n` entries of `v` settles
/// on when it moves only to an entry strictly greater than the best so far:
/// the first index of a maximum.
pub open spec fn first_max_index<T: PartialOrd>(v: Seq<T>, n: nat) -> nat
    decreases n,
{
    if n <= 1 {
        0
    } else {
        let best = first_max_index(v, (n - 1) as nat);
        if greater(v[n - 1], v[best as int]) {
            (n - 1) as nat
        } else {
            best
        }
    }
}

/// Encodes the digit `num` as a one-hot vector over `DIGIT_CLASSES` entries:
/// one at index `num`, zero elsewhere, and all zeros when `num` is out of
/// range.
pub fn convert_number_to_target_vec<T: Copy + From<u8>>(num: usize) -> (r: Vec<T>)
    ensures
        r@.len() == DIGIT_CLASSES,
        forall|i: int, j: int|
            0 <= i < DIGIT_CLASSES && 0 <= j < DIGIT_CLASSES && i != num && j != num ==> r@[i]
                == r@[j],
        T::obeys_from_spec() ==> r@ == one_hot(
            num as nat,
            DIGIT_CLASSES as nat,
            T::from_spec(0u8),
            T::from_spec(1u8),
        ),
        T::obeys_from_spec() && num >= DIGIT_CLASSES ==> forall|i: int|
            0 <= i < DIGIT_CLASSES ==> #[trigger] r@[i] == T::from_spec(0u8),
{
    let off = T::from(0u8);
    let on = T::from(1u8);
    let mut v: Vec<T> = Vec::new();
    let mut i: usize = 0;
    while i < DIGIT_CLASSES
        invariant
            i <= DIGIT_CLASSES,
            v@ == one_hot(num as nat, i as nat, off, on),
        decreases DIGIT_CLASSES - i,
    {
        if i == num {
            v.push(on);
        } else {
            v.push(off);
        }
        i = i + 1;
        assert(v@ =~= one_hot(num as nat, i as nat, off, on));
    }
    v
}

/// The index of the first maximum of `v`, scanning left to right, or `None`
/// when `v` is empty.  Entries that do not compare (a NaN) never replace the
/// best so far.
pub fn find_max_index<T: PartialOrd>(v: Vec<T>) -> (r: Option<usize>)
    ensures
        r is None <==> v@.len() == 0,
        r matches Some(i) ==> i < v@.len(),
        r matches Some(i) ==> T::obeys_partial_cmp_spec() ==> i == first_max_index(
            v@,
            v@.len(),
        ),
{
    if v.len() == 0 {
        return None;
    }
    let mut best: usize = 0;
    let mut i: usize = 1;
    while i < v.len()
        invariant
            1 <= i <= v@.len(),
            best < i,
            T::obeys_partial_cmp_spec() ==> best == first_max_index(v@, i as nat),
        decreases v@.len() - i,
    {
        if v[i] > v[best] {
            best = i;
        }
        i = i + 1;
    }
    Some(best)
}

/// The class that an output vector picks: the index of its first maximum.
/// An empty vector picks none.
pub fn convert_result_vec_to_number<T: PartialOrd>(result_vec: Vec<T>) -> (r: Result<
    usize,
    DecodeError,
>)
    ensures
        r is Err <==> result_vec@.len() == 0,
        r is Err ==> r == Err::<usize, DecodeError>(DecodeError::EmptyVector),
        r matches Ok(i) ==> i < result_vec@.len(),
        r matches Ok(i) ==> T::obeys_partial_cmp_spec() ==> i == first_max_index(
            result_vec@,
            result_vec@.len(),
        ),
{
    match find_max_index(result_vec) {
        Some(index) => Ok(index),
        None => Err(DecodeError::EmptyVector),
    }
}

} // verus!

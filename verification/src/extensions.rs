//! Small extensions of slices and vectors: the position of the largest or
//! smallest element, and pushing or extending by value.

use vstd::prelude::*;
use vstd::std_specs::cmp::PartialOrdSpec;
use core::cmp::Ordering;

verus! {

/// The position the scan of `index_of_max` ends on: the first element, replaced
/// by each later element that compares greater than the current choice.
pub open spec fn spec_index_of_max<T: PartialOrd>(s: Seq<T>) -> Option<int>
    decreases s.len(),
{
    if s.len() == 0 {
        None
    } else {
        match spec_index_of_max(s.drop_last()) {
            None => Some(0),
            Some(m) => if s.last().partial_cmp_spec(&s[m]) == Some(Ordering::Greater) {
                Some(s.len() - 1)
            } else {
                Some(m)
            },
        }
    }
}

/// The position the scan of `index_of_min` ends on: the first element, replaced
/// by each later element that compares less than the current choice.
pub open spec fn spec_index_of_min<T: PartialOrd>(s: Seq<T>) -> Option<int>
    decreases s.len(),
{
    if s.len() == 0 {
        None
    } else {
        match spec_index_of_min(s.drop_last()) {
            None => Some(0),
            Some(m) => if s.last().partial_cmp_spec(&s[m]) == Some(Ordering::Less) {
                Some(s.len() - 1)
            } else {
                Some(m)
            },
        }
    }
}

/// Whether the comparisons of `T` follow their specification.
pub open spec fn comparisons_specified<T: PartialOrd>() -> bool {
    T::obeys_partial_cmp_spec()
}

/// A position held by an `Option<usize>`, as an integer.
pub open spec fn position(o: Option<usize>) -> Option<int> {
    match o {
        Some(k) => Some(k as int),
        None => None,
    }
}

/// Finding the position of the largest and of the smallest element.
pub trait IndexOfMaxMin<T> {
    fn index_of_max(&self) -> Option<usize>;
    fn index_of_min(&self) -> Option<usize>;
}

impl<'a, T: PartialOrd> IndexOfMaxMin<T> for &'a [T] {
    /// The position of the first largest element; `None` for an empty slice.
    fn index_of_max(&self) -> (r: Option<usize>)
        ensures
            r is None <==> self@.len() == 0,
            r matches Some(k) ==> k < self@.len(),
            comparisons_specified::<T>() ==> position(r) == spec_index_of_max(self@),
    {
        let s: &[T] = *self;
        let mut option_index_of_max: Option<usize> = None;
        let mut i: usize = 0;
        while i < s.len()
            invariant
                i <= s@.len(),
                s@ == self@,
                option_index_of_max is None <==> i == 0,
                option_index_of_max matches Some(k) ==> k < i,
                comparisons_specified::<T>() ==> position(option_index_of_max) == spec_index_of_max(s@.subrange(0, i as int)),
            decreases s@.len() - i,
        {
            proof {
                assert(s@.subrange(0, i + 1).drop_last() =~= s@.subrange(0, i as int));
            }
            match option_index_of_max {
                None => {
                    option_index_of_max = Some(i);
                },
                Some(index_of_max) => {
                    if s[i] > s[index_of_max] {
                        option_index_of_max = Some(i);
                    }
                },
            }
            i = i + 1;
        }
        proof {
            assert(s@.subrange(0, s@.len() as int) =~= s@);
        }
        option_index_of_max
    }

    /// The position of the first smallest element; `None` for an empty slice.
    fn index_of_min(&self) -> (r: Option<usize>)
        ensures
            r is None <==> self@.len() == 0,
            r matches Some(k) ==> k < self@.len(),
            comparisons_specified::<T>() ==> position(r) == spec_index_of_min(self@),
    {
        let s: &[T] = *self;
        let mut option_index_of_min: Option<usize> = None;
        let mut i: usize = 0;
        while i < s.len()
            invariant
                i <= s@.len(),
                s@ == self@,
                option_index_of_min is None <==> i == 0,
                option_index_of_min matches Some(k) ==> k < i,
                comparisons_specified::<T>() ==> position(option_index_of_min) == spec_index_of_min(s@.subrange(0, i as int)),
            decreases s@.len() - i,
        {
            proof {
                assert(s@.subrange(0, i + 1).drop_last() =~= s@.subrange(0, i as int));
            }
            match option_index_of_min {
                None => {
                    option_index_of_min = Some(i);
                },
                Some(index_of_min) => {
                    if s[i] < s[index_of_min] {
                        option_index_of_min = Some(i);
                    }
                },
            }
            i = i + 1;
        }
        proof {
            assert(s@.subrange(0, s@.len() as int) =~= s@);
        }
        option_index_of_min
    }
}

/// For integers, `index_of_max` finds the first position of the largest value.
pub proof fn lemma_index_of_max_is_first_largest(s: Seq<i64>)
    ensures
        s.len() == 0 ==> spec_index_of_max(s) is None,
        spec_index_of_max(s) matches Some(k) ==> {
            &&& 0 <= k < s.len()
            &&& forall|j: int| 0 <= j < s.len() ==> s[j] <= s[k]
            &&& forall|j: int| 0 <= j < k ==> s[j] < s[k]
        },
    decreases s.len(),
{
    if s.len() > 0 {
        let p = s.drop_last();
        lemma_index_of_max_is_first_largest(p);
        match spec_index_of_max(p) {
            None => {
                assert(s.len() == 1);
            },
            Some(m) => {
                assert forall|j: int| 0 <= j < p.len() implies p[j] == s[j] by {}
                if s.last() > s[m] {
                    assert forall|j: int| 0 <= j < s.len() implies #[trigger] s[j] <= s[s.len() - 1] by {
                        if j < p.len() { assert(p[j] <= p[m]); }
                    }
                    assert forall|j: int| 0 <= j < s.len() - 1 implies #[trigger] s[j] < s[s.len() - 1] by {
                        assert(p[j] <= p[m]);
                    }
                } else {
                    assert forall|j: int| 0 <= j < s.len() implies s[j] <= s[m] by {
                        if j < p.len() { assert(p[j] <= p[m]); }
                    }
                    assert forall|j: int| 0 <= j < m implies s[j] < s[m] by {
                        assert(p[j] < p[m]);
                    }
                }
            },
        }
    }
}

/// For integers, `index_of_min` finds the first position of the smallest value.
pub proof fn lemma_index_of_min_is_first_smallest(s: Seq<i64>)
    ensures
        s.len() == 0 ==> spec_index_of_min(s) is None,
        spec_index_of_min(s) matches Some(k) ==> {
            &&& 0 <= k < s.len()
            &&& forall|j: int| 0 <= j < s.len() ==> s[k] <= s[j]
            &&& forall|j: int| 0 <= j < k ==> s[k] < s[j]
        },
    decreases s.len(),
{
    if s.len() > 0 {
        let p = s.drop_last();
        lemma_index_of_min_is_first_smallest(p);
        match spec_index_of_min(p) {
            None => {
                assert(s.len() == 1);
            },
            Some(m) => {
                if s.last() < s[m] {
                    assert forall|j: int| 0 <= j < s.len() implies s[s.len() - 1] <= #[trigger] s[j] by {
                        if j < p.len() { assert(p[m] <= p[j]); }
                    }
                    assert forall|j: int| 0 <= j < s.len() - 1 implies s[s.len() - 1] < #[trigger] s[j] by {
                        assert(p[m] <= p[j]);
                    }
                } else {
                    assert forall|j: int| 0 <= j < s.len() implies s[m] <= s[j] by {
                        if j < p.len() { assert(p[m] <= p[j]); }
                    }
                    assert forall|j: int| 0 <= j < m implies s[m] < s[j] by {
                        assert(p[m] < p[j]);
                    }
                }
            },
        }
    }
}

/// A vector with one more element pushed, returned by value.
pub trait Pushed<T> {
    fn pushed(self, other: T) -> Self;
}

impl<T> Pushed<T> for Vec<T> {
    fn pushed(self, other: T) -> (r: Self)
        ensures
            r@ == self@.push(other),
    {
        let mut v = self;
        v.push(other);
        v
    }
}

/// A vector extended by the elements of another, returned by value.
pub trait Extended<T> {
    fn extended(self, other: Vec<T>) -> Self;
}

impl<T> Extended<T> for Vec<T> {
    fn extended(self, other: Vec<T>) -> (r: Self)
        ensures
            r@ == self@ + other@,
    {
        let mut v = self;
        let mut o = other;
        v.append(&mut o);
        v
    }
}

} // verus!

use vstd::prelude::*;

verus! {

/// Replaces `self_value` with a clone of the value held by `other_value`, if any.
pub fn overwrite_from_option<T: Clone>(self_value: &mut T, other_value: &Option<T>)
    ensures
        other_value.is_none() ==> *final(self_value) == *old(self_value),
        other_value.is_some() ==> cloned(other_value.unwrap(), *final(self_value)),
{
    if let Some(value) = other_value.as_ref() {
        *self_value = value.clone();
    }
}

/// Replaces `self_value` with a clone of `other_value` when the latter is `Some`.
pub fn overwrite_option_from_option<T: Clone>(self_value: &mut Option<T>, other_value: &Option<T>)
    ensures
        other_value.is_none() ==> *final(self_value) == *old(self_value),
        other_value.is_some() ==> final(self_value).is_some() && cloned(
            other_value.unwrap(),
            final(self_value).unwrap(),
        ),
{
    if other_value.is_some() {
        *self_value = other_value.clone();
    }
}

/// Fills `a` from `b` only when `a` is still unset.
pub fn update_if_none<T: Clone>(a: &mut Option<T>, b: &Option<T>)
    ensures
        old(a).is_some() || b.is_none() ==> *final(a) == *old(a),
        old(a).is_none() && b.is_some() ==> final(a).is_some() && cloned(
            b.unwrap(),
            final(a).unwrap(),
        ),
{
    if a.is_none() && b.is_some() {
        *a = b.clone();
    }
}

} // verus!

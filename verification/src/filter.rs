use vstd::prelude::*;

verus! {

/// The filters that can be run over the finished pixel array.
#[derive(Clone, Copy, Debug, PartialEq, Eq, Structural)]
pub enum FilterMode {
    Identity,
}

/// The filter that changes nothing: it hands the pixel array back as it is.
pub fn identity_filter<T>(pixel_array: Vec<T>) -> (filtered: Vec<T>)
    ensures
        filtered == pixel_array,
{
    pixel_array
}

} // verus!

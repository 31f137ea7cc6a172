use vstd::prelude::*;

verus! {

/// A value that came from user space (an address or a number), not yet
/// checked.
#[allow(non_camel_case_types)]
#[derive(Clone, Copy)]
pub struct __user<T: Copy>(pub T);

/// A value that belongs to the kernel's own space.
#[allow(non_camel_case_types)]
#[derive(Clone, Copy)]
pub struct __kernel<T: Copy>(pub T);

impl<T: Copy> __user<T> {
    pub fn new(value: T) -> (r: Self)
        ensures
            r.0 == value,
    {
        __user(value)
    }

    pub fn inner(&self) -> (r: T)
        ensures
            r == self.0,
    {
        self.0
    }
}

impl<T: Copy> __kernel<T> {
    pub fn new(value: T) -> (r: Self)
        ensures
            r.0 == value,
    {
        __kernel(value)
    }

    pub fn inner(&self) -> (r: T)
        ensures
            r == self.0,
    {
        self.0
    }
}

} // verus!

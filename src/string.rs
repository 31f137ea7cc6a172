use vstd::prelude::*;
use vstd::string::StringSliceAdditionalSpecFns;

verus! {

/// Copies the bytes of `origin_str` to the front of `target` and puts a NUL
/// byte one place past the byte after them; the byte right after them is
/// left as it was. -1, with `target` untouched, for an empty string; else 0.
pub fn str_to_u8(origin_str: &str, target: &mut [u8]) -> (r: isize)
    requires
        origin_str.spec_bytes().len() == 0 || origin_str.spec_bytes().len() + 1 < old(target)@.len(),
    ensures
        origin_str.spec_bytes().len() == 0 ==> r == -1 && final(target)@ == old(target)@,
        origin_str.spec_bytes().len() > 0 ==> {
            let b = origin_str.spec_bytes();
            &&& r == 0
            &&& final(target)@ == b + old(target)@.subrange(b.len() as int, b.len() as int + 1).push(0u8)
                + old(target)@.subrange(b.len() as int + 2, old(target)@.len() as int)
        },
{
    let bytes = origin_str.as_bytes();
    let n = bytes.len();
    if n == 0 {
        return -1;
    }
    let ghost t0 = target@;
    let mut i: usize = 0;
    while i < n
        invariant
            n == bytes@.len(),
            bytes@ == origin_str.spec_bytes(),
            n + 1 < t0.len(),
            target@.len() == t0.len(),
            i <= n,
            forall|j: int| 0 <= j < i ==> target@[j] == bytes@[j],
            forall|j: int| i <= j < t0.len() ==> target@[j] == t0[j],
        decreases n - i,
    {
        target[i] = bytes[i];
        i = i + 1;
    }
    let tl = target.len();
    assert(n + 1 < tl);
    target[n + 1] = 0;
    proof {
        let b = origin_str.spec_bytes();
        assert(target@ =~= b + t0.subrange(b.len() as int, b.len() as int + 1).push(0u8) + t0.subrange(b.len() as int + 2, t0.len() as int));
    }
    0
}

/// The first ten bytes of `s`, padded with zeros.
pub fn str_to_u8_array_10(s: &str) -> (r: [u8; 10])
    ensures
        forall|i: int| 0 <= i < 10 ==> r@[i] == if i < s.spec_bytes().len() { s.spec_bytes()[i] } else { 0u8 },
{
    let bytes = s.as_bytes();
    let mut buf = [0u8; 10];
    let mut i: usize = 0;
    while i < bytes.len() && i < 10
        invariant
            bytes@ == s.spec_bytes(),
            i <= 10,
            buf@.len() == 10,
            forall|j: int| 0 <= j < i ==> buf@[j] == bytes@[j],
            forall|j: int| i <= j < 10 ==> buf@[j] == 0u8,
            i <= bytes@.len(),
        decreases 10 - i,
    {
        buf[i] = bytes[i];
        i = i + 1;
    }
    buf
}

/// Names reported by `uname`, each in ten NUL-padded bytes.
pub struct Sysinfo {
    pub os_name: [u8; 10],
    pub node_name: [u8; 10],
    pub kernel_release: [u8; 10],
    pub kernel_version: [u8; 10],
    pub machine: [u8; 10],
    pub kernel_name: [u8; 10],
}

} // verus!

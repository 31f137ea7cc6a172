use vstd::prelude::*;

verus! {

/// Where `exec` puts the argument vector on a fresh user stack.
pub struct ArgvLayout {
    /// Address of the pointer array: one pointer per argument, then a null.
    pub argv_base: usize,
    /// Address of each argument's NUL-terminated bytes.
    pub arg_addrs: Vec<usize>,
    /// Final stack pointer: below the last string, rounded down to 8.
    pub user_sp: usize,
}

/// Address of argument `i`'s bytes: the strings are laid out downwards
/// from `argv_base`, argument 0 highest, each followed by a NUL.
pub open spec fn arg_addr(argv_base: int, lens: Seq<usize>, i: int) -> int
    decreases i + 1,
{
    if i < 0 {
        argv_base
    } else {
        arg_addr(argv_base, lens, i - 1) - (lens[i] + 1)
    }
}

/// `r` is the layout of arguments of byte lengths `lens` below
/// `ustack_top` (see `exec_argv_layout`).
pub open spec fn layout_ok(ustack_top: usize, lens: Seq<usize>, r: Option<ArgvLayout>) -> bool {
    let n = lens.len();
    let base = ustack_top - (n + 1) * 8;
    let last = arg_addr(base, lens, n - 1);
    &&& r is None <==> (base < 0 || last < 0)
    &&& r matches Some(l) ==> {
        &&& l.argv_base == base
        &&& l.arg_addrs@.len() == n
        &&& forall|i: int| 0 <= i < n ==> l.arg_addrs@[i] == arg_addr(base, lens, i)
        &&& l.user_sp == last - last % 8
    }
}

/// Lays out `arg_lens.len()` arguments of the given byte lengths below
/// `ustack_top`: first the pointer array (8 bytes per argument plus a null
/// pointer), then each string with its NUL, then alignment to 8 bytes.
/// `None` when they do not fit above address 0.
pub fn exec_argv_layout(ustack_top: usize, arg_lens: &Vec<usize>) -> (r: Option<ArgvLayout>)
    ensures
        layout_ok(ustack_top, arg_lens@, r),
{
    let n = arg_lens.len();
    if n >= usize::MAX / 8 {
        proof {
            assert((n + 1) * 8 > ustack_top) by (nonlinear_arith)
                requires
                    n >= usize::MAX / 8,
                    ustack_top <= usize::MAX,
            ;
            lemma_arg_addr_decreasing(ustack_top - (n + 1) * 8, arg_lens@, n - 1);
        }
        return None;
    }
    let ptrs = (n + 1) * 8;
    if ptrs > ustack_top {
        proof {
            lemma_arg_addr_decreasing(ustack_top - (n + 1) * 8, arg_lens@, n - 1);
        }
        return None;
    }
    let argv_base = ustack_top - ptrs;
    let mut sp = argv_base;
    let mut arg_addrs: Vec<usize> = Vec::new();
    let mut i: usize = 0;
    while i < n
        invariant
            n == arg_lens@.len(),
            argv_base == ustack_top - (n + 1) * 8,
            i <= n,
            sp == arg_addr(argv_base as int, arg_lens@, i - 1),
            arg_addrs@.len() == i,
            forall|j: int| 0 <= j < i ==> arg_addrs@[j] == arg_addr(argv_base as int, arg_lens@, j),
        decreases n - i,
    {
        let need = arg_lens[i];
        if need >= sp {
            proof {
                lemma_arg_addr_decreasing(argv_base as int, arg_lens@, n - 1);
                lemma_arg_addr_monotone(argv_base as int, arg_lens@, i as int, n - 1);
            }
            return None;
        }
        sp = sp - need - 1;
        arg_addrs.push(sp);
        i = i + 1;
    }
    Some(ArgvLayout { argv_base, arg_addrs, user_sp: sp - sp % 8 })
}

/// Addresses only go down.
proof fn lemma_arg_addr_decreasing(base: int, lens: Seq<usize>, i: int)
    ensures
        arg_addr(base, lens, i) <= base,
    decreases i + 1,
{
    if i >= 0 {
        lemma_arg_addr_decreasing(base, lens, i - 1);
    }
}

/// A later argument lies below an earlier one.
proof fn lemma_arg_addr_monotone(base: int, lens: Seq<usize>, i: int, j: int)
    requires
        i <= j,
    ensures
        0 <= i <= j ==> arg_addr(base, lens, j) <= arg_addr(base, lens, i),
    decreases j - i,
{
    if i < j {
        lemma_arg_addr_monotone(base, lens, i, j - 1);
    }
}

} // verus!

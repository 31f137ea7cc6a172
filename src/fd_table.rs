use vstd::prelude::*;

verus! {

/// One allocated descriptor and the file it holds, if any.
#[derive(Clone, Copy, Debug, PartialEq, Eq, Structural)]
pub struct FdEntry {
    pub fd: usize,
    pub file: Option<u64>,
}

/// The descriptor-to-file map of a list of entries; a later entry for the
/// same descriptor wins.
pub open spec fn entries_map(s: Seq<FdEntry>) -> Map<usize, Option<u64>>
    decreases s.len(),
{
    if s.len() == 0 {
        Map::empty()
    } else {
        entries_map(s.drop_last()).insert(s.last().fd, s.last().file)
    }
}

/// The elements of `s`.
pub open spec fn set_of(s: Seq<usize>) -> Set<usize> {
    Set::new(|x: usize| s.contains(x))
}

pub proof fn lemma_set_of_push(s: Seq<usize>, x: usize)
    ensures
        set_of(s.push(x)) == set_of(s).insert(x),
        s.no_duplicates() && !s.contains(x) ==> s.push(x).no_duplicates(),
{
    let t = s.push(x);
    assert forall|y: usize| t.contains(y) <==> (s.contains(y) || y == x) by {
        if t.contains(y) {
            let j = choose|j: int| 0 <= j < t.len() && t[j] == y;
            if j < s.len() {
                assert(s[j] == y);
            }
        }
        if s.contains(y) {
            let j = choose|j: int| 0 <= j < s.len() && s[j] == y;
            assert(t[j] == y);
        }
        if y == x {
            assert(t[s.len() as int] == x);
        }
    }
    assert(set_of(t) =~= set_of(s).insert(x));
    if s.no_duplicates() && !s.contains(x) {
        assert forall|a: int, b: int| 0 <= a < b < t.len() implies t[a] != t[b] by {
            if b == s.len() {
                assert(s.contains(s[a]));
            }
        }
    }
}

/// Every element of `small` is one of `big`'s; when all of `big` are keys
/// of `m`, so are all of `small`.
pub proof fn lemma_all_keys(m: Map<usize, Option<u64>>, big: Seq<usize>, small: Seq<usize>)
    requires
        forall|y: usize| set_of(small).contains(y) ==> set_of(big).contains(y),
        forall|i: int| 0 <= i < big.len() ==> m.contains_key(#[trigger] big[i]),
    ensures
        forall|i: int| 0 <= i < small.len() ==> m.contains_key(#[trigger] small[i]),
{
    assert forall|i: int| 0 <= i < small.len() implies m.contains_key(#[trigger] small[i]) by {
        assert(set_of(small).contains(small[i]));
        let j = choose|j: int| 0 <= j < big.len() && big[j] == small[i];
    }
}

pub open spec fn unique_fds(s: Seq<FdEntry>) -> bool {
    forall|i: int, j: int| 0 <= i < j < s.len() ==> s[i].fd != s[j].fd
}

/// With unique descriptors, the map has exactly the listed descriptors,
/// each with its file, and as many of them as entries.
pub proof fn lemma_entries_map(s: Seq<FdEntry>)
    requires
        unique_fds(s),
    ensures
        forall|i: int| 0 <= i < s.len() ==> #[trigger] entries_map(s).contains_key(s[i].fd)
            && entries_map(s)[s[i].fd] == s[i].file,
        forall|k: usize| entries_map(s).contains_key(k) ==> exists|i: int| 0 <= i < s.len() && s[i].fd == k,
        entries_map(s).dom().finite(),
        entries_map(s).len() == s.len(),
    decreases s.len(),
{
    if s.len() > 0 {
        let t = s.drop_last();
        assert(unique_fds(t));
        lemma_entries_map(t);
        let last = s.last();
        assert(!entries_map(t).contains_key(last.fd)) by {
            if entries_map(t).contains_key(last.fd) {
                let i = choose|i: int| 0 <= i < t.len() && t[i].fd == last.fd;
                assert(s[i].fd != s[s.len() - 1].fd);
            }
        }
        assert forall|i: int| 0 <= i < s.len() implies #[trigger] entries_map(s).contains_key(s[i].fd)
            && entries_map(s)[s[i].fd] == s[i].file by {
            if i < s.len() - 1 {
                assert(t[i] == s[i]);
                assert(s[i].fd != s[s.len() - 1].fd);
            }
        }
        assert forall|k: usize| entries_map(s).contains_key(k) implies exists|i: int| 0 <= i < s.len() && s[i].fd == k by {
            if k != last.fd {
                let i = choose|i: int| 0 <= i < t.len() && t[i].fd == k;
                assert(s[i].fd == k);
            } else {
                assert(s[s.len() - 1].fd == k);
            }
        }
        assert(entries_map(s).dom() == entries_map(t).dom().insert(last.fd));
    } else {
        assert(entries_map(s).dom() =~= Set::<usize>::empty());
    }
}

/// Replacing the file of entry `i` replaces it in the map.
pub proof fn lemma_entries_map_update(s: Seq<FdEntry>, i: int, file: Option<u64>)
    requires
        unique_fds(s),
        0 <= i < s.len(),
    ensures
        unique_fds(s.update(i, FdEntry { fd: s[i].fd, file })),
        entries_map(s.update(i, FdEntry { fd: s[i].fd, file })) == entries_map(s).insert(s[i].fd, file),
{
    let s2 = s.update(i, FdEntry { fd: s[i].fd, file });
    assert(unique_fds(s2)) by {
        assert forall|a: int, b: int| 0 <= a < b < s2.len() implies s2[a].fd != s2[b].fd by {
            assert(s[a].fd != s[b].fd);
        }
    }
    lemma_entries_map(s);
    lemma_entries_map(s2);
    assert(entries_map(s2) =~= entries_map(s).insert(s[i].fd, file)) by {
        assert forall|k: usize| #[trigger] entries_map(s2).contains_key(k) <==> entries_map(s).insert(s[i].fd, file).contains_key(k) by {
            if entries_map(s2).contains_key(k) {
                let j = choose|j: int| 0 <= j < s2.len() && s2[j].fd == k;
                assert(entries_map(s).contains_key(s[j].fd));
            }
            if entries_map(s).contains_key(k) {
                let j = choose|j: int| 0 <= j < s.len() && s[j].fd == k;
                assert(entries_map(s2).contains_key(s2[j].fd));
            }
        }
        assert forall|k: usize| #[trigger] entries_map(s2).contains_key(k) implies entries_map(s2)[k] == entries_map(s).insert(s[i].fd, file)[k] by {
            let j = choose|j: int| 0 <= j < s2.len() && s2[j].fd == k;
            if j != i {
                assert(s2[j] == s[j]);
                assert(entries_map(s)[s[j].fd] == s[j].file);
            }
        }
    }
}

/// A descriptor table that recycles freed descriptors. Descriptors handed
/// out in order come from a rising bound; ones asked for by number are
/// remembered so that the bound steps over them. A freed descriptor stays
/// in the table, empty, until it is handed out again.
pub struct FdTable {
    recycle: Vec<usize>,
    table: Vec<FdEntry>,
    manually_used: Vec<usize>,
    upper_bound: usize,
}

impl FdTable {
    /// Allocated descriptors and their files.
    pub closed spec fn files(&self) -> Map<usize, Option<u64>> {
        entries_map(self.table@)
    }

    /// Freed descriptors, to be handed out again smallest first.
    pub closed spec fn recycled(&self) -> Set<usize> {
        set_of(self.recycle@)
    }

    /// Descriptors that were asked for by number.
    pub closed spec fn manual(&self) -> Set<usize> {
        set_of(self.manually_used@)
    }

    /// Next descriptor to hand out in order.
    pub closed spec fn bound(&self) -> usize {
        self.upper_bound
    }

    pub closed spec fn wf(&self) -> bool {
        &&& unique_fds(self.table@)
        &&& self.recycle@.no_duplicates()
        &&& self.manually_used@.no_duplicates()
        &&& forall|i: int| 0 <= i < self.recycle@.len() ==> entries_map(self.table@).contains_key(#[trigger] self.recycle@[i])
        &&& forall|i: int| 0 <= i < self.manually_used@.len() ==> entries_map(self.table@).contains_key(#[trigger] self.manually_used@[i])
    }

    /// A recycled descriptor is still allocated (it holds no file).
    pub proof fn lemma_recycled_allocated(&self)
        requires
            self.wf(),
        ensures
            forall|x: usize| #[trigger] self.recycled().contains(x) ==> self.files().contains_key(x),
    {
        assert forall|x: usize| #[trigger] self.recycled().contains(x) implies self.files().contains_key(x) by {
            let i = choose|i: int| 0 <= i < self.recycle@.len() && self.recycle@[i] == x;
        }
    }

    pub fn new() -> (r: FdTable)
        ensures
            r.wf(),
            r.files() == Map::<usize, Option<u64>>::empty(),
            r.recycled() == Set::<usize>::empty(),
            r.manual() == Set::<usize>::empty(),
            r.bound() == 0,
    {
        let r = FdTable { recycle: Vec::new(), table: Vec::new(), manually_used: Vec::new(), upper_bound: 0 };
        proof {
            assert(set_of(r.recycle@) =~= Set::<usize>::empty());
            assert(set_of(r.manually_used@) =~= Set::<usize>::empty());
        }
        r
    }

    /// A copy holding the same files.
    pub fn clone(&self) -> (r: FdTable)
        requires
            self.wf(),
        ensures
            r.wf(),
            r.files() == self.files(),
            r.recycled() == self.recycled(),
            r.manual() == self.manual(),
            r.bound() == self.bound(),
    {
        FdTable {
            recycle: copy_usizes(&self.recycle),
            table: copy_entries(&self.table),
            manually_used: copy_usizes(&self.manually_used),
            upper_bound: self.upper_bound,
        }
    }

    /// Position of descriptor `fd` in the table, if allocated.
    fn find(&self, fd: usize) -> (r: Option<usize>)
        requires
            self.wf(),
        ensures
            r is None ==> !self.files().contains_key(fd),
            r matches Some(i) ==> i < self.table@.len() && self.table@[i as int].fd == fd,
    {
        proof {
            lemma_entries_map(self.table@);
        }
        let n = self.table.len();
        let mut i: usize = 0;
        while i < n
            invariant
                n == self.table@.len(),
                i <= n,
                forall|j: int| 0 <= j < i ==> self.table@[j].fd != fd,
            decreases n - i,
        {
            if self.table[i].fd == fd {
                return Some(i);
            }
            i = i + 1;
        }
        None
    }

    /// Gives descriptor `fd` the empty file, adding it when absent.
    fn insert_empty(&mut self, fd: usize)
        requires
            old(self).wf(),
        ensures
            final(self).wf(),
            final(self).files() == old(self).files().insert(fd, None),
            final(self).recycle == old(self).recycle,
            final(self).manually_used == old(self).manually_used,
            final(self).upper_bound == old(self).upper_bound,
    {
        match self.find(fd) {
            Some(i) => {
                proof {
                    lemma_entries_map_update(self.table@, i as int, None);
                }
                self.table.set(i, FdEntry { fd, file: None });
            },
            None => {
                let ghost t0 = self.table@;
                proof {
                    lemma_entries_map(t0);
                }
                self.table.push(FdEntry { fd, file: None });
                proof {
                    assert(self.table@.drop_last() == t0);
                    assert forall|a: int, b: int| 0 <= a < b < self.table@.len() implies self.table@[a].fd != self.table@[b].fd by {
                        if b == t0.len() {
                            assert(entries_map(t0).contains_key(t0[a].fd));
                        } else {
                            assert(t0[a].fd != t0[b].fd);
                        }
                    }
                }
            },
        }
    }

    /// Allocates a descriptor. With `newfd == -1`: the smallest recycled
    /// one, else the bound (first stepped over descriptors asked for by
    /// number), which then moves up by one and gets an empty slot. With
    /// another `newfd`, that number: `None` when it is allocated and not
    /// recycled; a recycled one is taken out of the recycled set, any
    /// other gets an empty slot and is remembered as asked for. `None` too
    /// when the bound cannot move.
    pub fn alloc_fd(&mut self, newfd: isize) -> (r: Option<usize>)
        requires
            old(self).wf(),
        ensures
            final(self).wf(),
            newfd == -1 && old(self).recycled() != Set::<usize>::empty() ==> {
                &&& r matches Some(fd) && old(self).recycled().contains(fd)
                    && forall|x: usize| old(self).recycled().contains(x) ==> fd <= x
                &&& final(self).recycled() == old(self).recycled().remove(r->0)
                &&& final(self).files() == old(self).files()
                &&& final(self).files().contains_key(r->0)
                &&& final(self).bound() == old(self).bound()
            },
            newfd == -1 && old(self).recycled() == Set::<usize>::empty() && r is None ==> forall|x: usize|
                old(self).bound() <= x < usize::MAX ==> old(self).manual().contains(x),
            newfd == -1 && old(self).recycled() == Set::<usize>::empty() && r is Some ==> {
                let fd = r->0;
                &&& old(self).bound() <= fd
                &&& !old(self).manual().contains(fd)
                &&& forall|x: usize| old(self).bound() <= x < fd ==> old(self).manual().contains(x)
                &&& final(self).bound() == fd + 1
                &&& final(self).files() == old(self).files().insert(fd, None)
                &&& final(self).recycled() == old(self).recycled()
            },
            newfd != -1 ==> {
                let fd = newfd as usize;
                let taken = old(self).files().contains_key(fd) && !old(self).recycled().contains(fd);
                &&& taken ==> r is None && final(self).files() == old(self).files()
                    && final(self).recycled() == old(self).recycled() && final(self).manual() == old(self).manual()
                &&& !taken ==> r == Some(fd)
                &&& !taken && old(self).recycled().contains(fd) ==> final(self).recycled() == old(self).recycled().remove(fd)
                    && final(self).files() == old(self).files() && final(self).manual() == old(self).manual()
                    && final(self).files().contains_key(fd)
                &&& !taken && !old(self).recycled().contains(fd) ==> final(self).recycled() == old(self).recycled()
                    && final(self).files() == old(self).files().insert(fd, None)
                    && final(self).manual() == old(self).manual().insert(fd)
                &&& final(self).bound() == old(self).bound()
            },
    {
        proof {
            self.lemma_recycled_allocated();
        }
        if newfd == -1 {
            if self.recycle.len() > 0 {
                proof {
                    assert(set_of(self.recycle@).contains(self.recycle@[0]));
                }
                let ghost r0 = self.recycle@;
                let fd = take_min(&mut self.recycle);
                proof {
                    lemma_all_keys(entries_map(self.table@), r0, self.recycle@);
                }
                return Some(fd);
            }
            proof {
                assert(set_of(self.recycle@) =~= Set::<usize>::empty());
            }
            while contains_usize(&self.manually_used, self.upper_bound)
                invariant
                    newfd == -1,
                    old(self).recycled() == Set::<usize>::empty(),
                    self.wf(),
                    self.files() == old(self).files(),
                    self.recycle == old(self).recycle,
                    self.manually_used == old(self).manually_used,
                    old(self).upper_bound <= self.upper_bound,
                    forall|x: usize| old(self).upper_bound <= x < self.upper_bound ==> old(self).manual().contains(x),
                decreases usize::MAX - self.upper_bound,
            {
                if self.upper_bound == usize::MAX {
                    return None;
                }
                self.upper_bound = self.upper_bound + 1;
            }
            if self.upper_bound == usize::MAX {
                return None;
            }
            let fd = self.upper_bound;
            self.insert_empty(fd);
            self.upper_bound = fd + 1;
            Some(fd)
        } else {
            let fd = newfd as usize;
            let in_recycle = contains_usize(&self.recycle, fd);
            proof {
                lemma_entries_map(self.table@);
            }
            if self.find(fd).is_some() && !in_recycle {
                return None;
            }
            let ghost r0 = self.recycle@;
            let removed = remove_usize(&mut self.recycle, fd);
            proof {
                lemma_all_keys(entries_map(self.table@), r0, self.recycle@);
            }
            if !removed {
                self.insert_empty(fd);
                let ghost m0 = self.manually_used@;
                proof {
                    lemma_entries_map(self.table@);
                    assert(!m0.contains(fd)) by {
                        if m0.contains(fd) {
                            let j = choose|j: int| 0 <= j < m0.len() && m0[j] == fd;
                            assert(entries_map(old(self).table@).contains_key(m0[j]));
                        }
                    }
                    lemma_set_of_push(m0, fd);
                }
                self.manually_used.push(fd);
                proof {
                    lemma_entries_map(self.table@);
                    assert forall|i: int| 0 <= i < self.recycle@.len() implies entries_map(self.table@).contains_key(#[trigger] self.recycle@[i]) by {
                        assert(entries_map(old(self).table@).contains_key(self.recycle@[i]));
                    }
                    assert forall|i: int| 0 <= i < self.manually_used@.len() implies entries_map(self.table@).contains_key(#[trigger] self.manually_used@[i]) by {
                        if i < m0.len() {
                            assert(entries_map(old(self).table@).contains_key(m0[i]));
                        }
                    }
                }
            }
            Some(fd)
        }
    }

    /// Frees allocated descriptor `oldfd`: its slot is emptied and it is
    /// recycled.
    pub fn dealloc_fd(&mut self, oldfd: usize)
        requires
            old(self).wf(),
            old(self).files().contains_key(oldfd),
        ensures
            final(self).wf(),
            final(self).files() == old(self).files().insert(oldfd, None),
            final(self).recycled() == old(self).recycled().insert(oldfd),
            final(self).manual() == old(self).manual(),
            final(self).bound() == old(self).bound(),
    {
        self.insert_empty(oldfd);
        if !contains_usize(&self.recycle, oldfd) {
            let ghost r0 = self.recycle@;
            proof {
                lemma_set_of_push(r0, oldfd);
            }
            self.recycle.push(oldfd);
        } else {
            proof {
                assert(set_of(self.recycle@) =~= set_of(self.recycle@).insert(oldfd));
            }
        }
    }

    /// The file of allocated descriptor `index`.
    pub fn get(&self, index: usize) -> (r: Option<u64>)
        requires
            self.wf(),
            self.files().contains_key(index),
        ensures
            r == self.files()[index],
    {
        proof {
            lemma_entries_map(self.table@);
        }
        let i = self.find(index).unwrap();
        self.table[i].file
    }

    /// Puts `file` in allocated descriptor `index`.
    pub fn get_mut(&mut self, index: usize, file: Option<u64>)
        requires
            old(self).wf(),
            old(self).files().contains_key(index),
        ensures
            final(self).wf(),
            final(self).files() == old(self).files().insert(index, file),
            final(self).recycled() == old(self).recycled(),
            final(self).manual() == old(self).manual(),
            final(self).bound() == old(self).bound(),
    {
        let i = self.find(index).unwrap();
        proof {
            lemma_entries_map_update(self.table@, i as int, file);
        }
        self.table.set(i, FdEntry { fd: index, file });
    }

    /// Number of allocated descriptors.
    pub fn len(&self) -> (r: usize)
        requires
            self.wf(),
        ensures
            r == self.files().len(),
    {
        proof {
            lemma_entries_map(self.table@);
        }
        self.table.len()
    }

    /// Forgets every descriptor.
    pub fn clear(&mut self)
        ensures
            final(self).wf(),
            final(self).files() == Map::<usize, Option<u64>>::empty(),
            final(self).recycled() == Set::<usize>::empty(),
            final(self).manual() == Set::<usize>::empty(),
            final(self).bound() == 0,
    {
        self.manually_used.clear();
        self.recycle.clear();
        self.table.clear();
        self.upper_bound = 0;
        proof {
            assert(set_of(self.recycle@) =~= Set::<usize>::empty());
            assert(set_of(self.manually_used@) =~= Set::<usize>::empty());
        }
    }

    /// Whether descriptor `fd` holds a file.
    pub fn contains(&self, fd: usize) -> (r: bool)
        requires
            self.wf(),
        ensures
            r == (self.files().contains_key(fd) && self.files()[fd] is Some),
    {
        proof {
            lemma_entries_map(self.table@);
        }
        match self.find(fd) {
            Some(i) => {
                proof {
                    assert(entries_map(self.table@).contains_key(self.table@[i as int].fd));
                }
                self.table[i].file.is_some()
            },
            None => false,
        }
    }
}

fn contains_usize(v: &Vec<usize>, x: usize) -> (r: bool)
    ensures
        r == set_of(v@).contains(x),
{
    let n = v.len();
    let mut i: usize = 0;
    while i < n
        invariant
            n == v@.len(),
            i <= n,
            forall|j: int| 0 <= j < i ==> v@[j] != x,
        decreases n - i,
    {
        if v[i] == x {
            proof {
                assert(v@.contains(x));
            }
            return true;
        }
        i = i + 1;
    }
    proof {
        assert(!v@.contains(x));
    }
    false
}

/// Removes `x` from `v` (without duplicates); `false` when it was absent.
fn remove_usize(v: &mut Vec<usize>, x: usize) -> (r: bool)
    requires
        old(v)@.no_duplicates(),
    ensures
        final(v)@.no_duplicates(),
        r == set_of(old(v)@).contains(x),
        set_of(final(v)@) == set_of(old(v)@).remove(x),
        !r ==> *final(v) == *old(v),
{
    let n = v.len();
    let mut i: usize = 0;
    while i < n
        invariant
            n == v@.len(),
            *v == *old(v),
            v@.no_duplicates(),
            i <= n,
            forall|j: int| 0 <= j < i ==> v@[j] != x,
        decreases n - i,
    {
        if v[i] == x {
            let ghost v0 = v@;
            let _ = v.swap_remove(i);
            proof {
                let last = v0.len() - 1;
                assert(v@ == v0.update(i as int, v0[last]).drop_last());
                assert(v0[i as int] == x);
                assert forall|y: usize| v@.contains(y) <==> (v0.contains(y) && y != x) by {
                    if v@.contains(y) {
                        let j = choose|j: int| 0 <= j < v@.len() && v@[j] == y;
                        if j == i {
                            assert(v0[last] == y);
                            assert(v0[last] != v0[i as int]);
                        } else {
                            assert(v0[j] == y);
                            assert(v0[j] != v0[i as int]);
                        }
                    }
                    if v0.contains(y) && y != x {
                        let j = choose|j: int| 0 <= j < v0.len() && v0[j] == y;
                        if j == last {
                            assert(v@[i as int] == y);
                        } else {
                            assert(v@[j] == y);
                        }
                    }
                }
                assert(set_of(v@) =~= set_of(v0).remove(x));
                assert forall|a: int, b: int| 0 <= a < b < v@.len() implies v@[a] != v@[b] by {
                    let a0 = if a == i { last } else { a };
                    let b0 = if b == i { last } else { b };
                    assert(v0[a0] == v@[a]);
                    assert(v0[b0] == v@[b]);
                    assert(a0 != b0);
                }
            }
            return true;
        }
        i = i + 1;
    }
    proof {
        assert(!v@.contains(x));
        assert(set_of(v@) =~= set_of(v@).remove(x));
    }
    false
}

/// Removes and returns the smallest element of non-empty `v`.
fn take_min(v: &mut Vec<usize>) -> (r: usize)
    requires
        old(v)@.no_duplicates(),
        old(v)@.len() > 0,
    ensures
        final(v)@.no_duplicates(),
        set_of(old(v)@).contains(r),
        forall|x: usize| set_of(old(v)@).contains(x) ==> r <= x,
        set_of(final(v)@) == set_of(old(v)@).remove(r),
{
    let n = v.len();
    let mut best = v[0];
    let mut i: usize = 1;
    while i < n
        invariant
            n == v@.len(),
            1 <= i <= n,
            v@.contains(best),
            forall|j: int| 0 <= j < i ==> best <= v@[j],
        decreases n - i,
    {
        if v[i] < best {
            best = v[i];
        }
        i = i + 1;
    }
    proof {
        assert forall|x: usize| set_of(v@).contains(x) implies best <= x by {
            let j = choose|j: int| 0 <= j < v@.len() && v@[j] == x;
        }
    }
    let _ = remove_usize(v, best);
    best
}

fn copy_usizes(v: &Vec<usize>) -> (r: Vec<usize>)
    ensures
        r@ == v@,
{
    let mut r: Vec<usize> = Vec::new();
    let n = v.len();
    let mut i: usize = 0;
    while i < n
        invariant
            n == v@.len(),
            i <= n,
            r@ == v@.take(i as int),
        decreases n - i,
    {
        r.push(v[i]);
        proof {
            assert(v@.take(i as int + 1) == v@.take(i as int).push(v@[i as int]));
        }
        i = i + 1;
    }
    proof {
        assert(v@.take(n as int) =~= v@);
    }
    r
}

fn copy_entries(v: &Vec<FdEntry>) -> (r: Vec<FdEntry>)
    ensures
        r@ == v@,
{
    let mut r: Vec<FdEntry> = Vec::new();
    let n = v.len();
    let mut i: usize = 0;
    while i < n
        invariant
            n == v@.len(),
            i <= n,
            r@ == v@.take(i as int),
        decreases n - i,
    {
        r.push(v[i]);
        proof {
            assert(v@.take(i as int + 1) == v@.take(i as int).push(v@[i as int]));
        }
        i = i + 1;
    }
    proof {
        assert(v@.take(n as int) =~= v@);
    }
    r
}

} // verus!

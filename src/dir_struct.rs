use vstd::prelude::*;
use vstd::string::StringSliceAdditionalSpecFns;

verus! {

/// The working directory's path, as bytes, and its inode (a handle the
/// filesystem gave out).
pub struct DirStructInner {
    pub cwd: Vec<u8>,
    pub inode: u64,
}

/// Per-process working-directory state.
pub struct DirStruct {
    pub inner: DirStructInner,
}

/// Position of the last `/` in `s`, if any.
pub open spec fn last_slash(s: Seq<u8>) -> Option<int>
    decreases s.len(),
{
    if s.len() == 0 {
        None
    } else if s.last() == 47u8 {
        Some(s.len() - 1)
    } else {
        last_slash(s.drop_last())
    }
}

impl DirStruct {
    /// The root path `/` on directory `current_inode`.
    pub fn new(current_inode: u64) -> (r: DirStruct)
        ensures
            r.inner.cwd@ == seq![47u8],
            r.inner.inode == current_inode,
    {
        let mut cwd: Vec<u8> = Vec::new();
        cwd.push(47u8);
        proof {
            assert(cwd@ =~= seq![47u8]);
        }
        DirStruct { inner: DirStructInner { cwd, inode: current_inode } }
    }

    pub fn get_current_inode(&self) -> (r: u64)
        ensures
            r == self.inner.inode,
    {
        self.inner.inode
    }

    /// Takes `path` as the working path; returns 0.
    pub fn chdir(&mut self, path: &str) -> (r: isize)
        ensures
            r == 0,
            final(self).inner.cwd@ == path.spec_bytes(),
            final(self).inner.inode == old(self).inner.inode,
    {
        self.inner.cwd = bytes_of(path);
        0
    }

    /// The working path.
    pub fn getcwd(&self) -> (r: Vec<u8>)
        ensures
            r@ == self.inner.cwd@,
    {
        let mut r: Vec<u8> = Vec::new();
        let n = self.inner.cwd.len();
        let mut i: usize = 0;
        while i < n
            invariant
                n == self.inner.cwd@.len(),
                i <= n,
                r@ == self.inner.cwd@.take(i as int),
            decreases n - i,
        {
            r.push(self.inner.cwd[i]);
            proof {
                assert(self.inner.cwd@.take(i as int + 1) == self.inner.cwd@.take(i as int).push(self.inner.cwd@[i as int]));
            }
            i = i + 1;
        }
        proof {
            assert(self.inner.cwd@.take(n as int) =~= self.inner.cwd@);
        }
        r
    }

    /// After the filesystem made directory `name` in the working directory
    /// (`made` is its inode, `None` if it failed), appends `/name` to the
    /// working path and returns `made`; on failure nothing changes.
    pub fn mkdirat(&mut self, name: &str, made: Option<u64>) -> (r: Option<u64>)
        ensures
            r == made,
            made is None ==> final(self).inner.cwd@ == old(self).inner.cwd@,
            made is Some ==> final(self).inner.cwd@ == old(self).inner.cwd@.push(47u8) + name.spec_bytes(),
            final(self).inner.inode == old(self).inner.inode,
    {
        if made.is_none() {
            return None;
        }
        let ghost c0 = self.inner.cwd@;
        self.inner.cwd.push(47u8);
        let bytes = name.as_bytes();
        let n = bytes.len();
        let mut i: usize = 0;
        while i < n
            invariant
                n == bytes@.len(),
                bytes@ == name.spec_bytes(),
                i <= n,
                self.inner.cwd@ == c0.push(47u8) + bytes@.take(i as int),
                self.inner.inode == old(self).inner.inode,
            decreases n - i,
        {
            self.inner.cwd.push(bytes[i]);
            proof {
                assert(bytes@.take(i as int + 1) == bytes@.take(i as int).push(bytes@[i as int]));
                assert(c0.push(47u8) + bytes@.take(i as int + 1) =~= (c0.push(47u8) + bytes@.take(i as int)).push(bytes@[i as int]));
            }
            i = i + 1;
        }
        proof {
            assert(bytes@.take(n as int) =~= bytes@);
        }
        made
    }

    /// After the filesystem removed directory `name` (`removed` is its
    /// inode, `None` if it failed), cuts the working path at its last `/`
    /// and returns `removed`; on failure nothing changes.
    pub fn rmdirat(&mut self, name: &str, removed: Option<u64>) -> (r: Option<u64>)
        ensures
            r == removed,
            removed is None ==> final(self).inner.cwd@ == old(self).inner.cwd@,
            removed is Some ==> final(self).inner.cwd@ == match last_slash(old(self).inner.cwd@) {
                Some(pos) => old(self).inner.cwd@.take(pos),
                None => old(self).inner.cwd@,
            },
            final(self).inner.inode == old(self).inner.inode,
    {
        if removed.is_none() {
            return None;
        }
        let n = self.inner.cwd.len();
        let mut i: usize = n;
        proof {
            assert(self.inner.cwd@.take(n as int) =~= self.inner.cwd@);
        }
        while i > 0 && self.inner.cwd[i - 1] != 47u8
            invariant
                n == self.inner.cwd@.len(),
                i <= n,
                last_slash(self.inner.cwd@) == last_slash(self.inner.cwd@.take(i as int)),
            decreases i,
        {
            proof {
                let t = self.inner.cwd@.take(i as int);
                assert(t.drop_last() == self.inner.cwd@.take(i as int - 1));
            }
            i = i - 1;
        }
        proof {
            assert(self.inner.cwd@.take(n as int) =~= self.inner.cwd@);
            if i > 0 {
                assert(last_slash(self.inner.cwd@.take(i as int)) == Some(i as int - 1));
            } else {
                assert(self.inner.cwd@.take(0) =~= Seq::<u8>::empty());
            }
        }
        if i > 0 {
            self.inner.cwd.truncate(i - 1);
        }
        removed
    }
}

/// The bytes of `s`.
fn bytes_of(s: &str) -> (r: Vec<u8>)
    ensures
        r@ == s.spec_bytes(),
{
    let b = s.as_bytes();
    let mut r: Vec<u8> = Vec::new();
    let n = b.len();
    let mut i: usize = 0;
    while i < n
        invariant
            n == b@.len(),
            b@ == s.spec_bytes(),
            i <= n,
            r@ == b@.take(i as int),
        decreases n - i,
    {
        r.push(b[i]);
        proof {
            assert(b@.take(i as int + 1) == b@.take(i as int).push(b@[i as int]));
        }
        i = i + 1;
    }
    proof {
        assert(b@.take(n as int) =~= b@);
    }
    r
}

} // verus!

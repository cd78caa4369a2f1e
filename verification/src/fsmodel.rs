//! An in-memory filesystem model.
//!
//! The move engine's behaviour is specified and verified against this
//! model: a finite map from paths to entries.  An entry records whether it
//! is a directory, its byte content, the device it lives on, and whether
//! it is locked (a locked entry cannot be removed or overwritten, which is
//! how the model exhibits the failure modes a real filesystem has).
//!
//! A rename is atomic and fails with the distinguished [`FsError::CrossDevice`]
//! when source and destination live on different devices; a copy writes a
//! fresh unlocked file on the destination's device; directories are listed
//! by the names of their children.

use vstd::prelude::*;

use crate::pathops::spec_join;
use crate::pathops::spec_parent;
use crate::pathops::parent_of;

verus! {

/// One filesystem entry of the model.
pub struct FsEntry {
    pub is_dir: bool,
    pub data: Vec<u8>,
    pub device: u64,
    pub locked: bool,
}

/// Mathematical image of an [`FsEntry`].
pub struct EntryView {
    pub is_dir: bool,
    pub data: Seq<u8>,
    pub device: u64,
    pub locked: bool,
}

impl View for FsEntry {
    type V = EntryView;

    open spec fn view(&self) -> EntryView {
        EntryView { is_dir: self.is_dir, data: self.data@, device: self.device, locked: self.locked }
    }
}

/// An error a model filesystem operation reports.
#[derive(Clone, Copy, PartialEq, Eq, Structural, Debug)]
pub enum FsError {
    NotFound,
    CrossDevice,
    IsDirectory,
    Denied,
}

/// The entry list has no key twice.
pub open spec fn distinct_keys(s: Seq<(String, FsEntry)>) -> bool {
    forall|i: int, j: int|
        0 <= i < j < s.len() ==> (#[trigger] s[i]).0@ != (#[trigger] s[j]).0@
}

/// The map an entry list denotes.
pub open spec fn map_of(s: Seq<(String, FsEntry)>) -> Map<Seq<char>, EntryView>
    decreases s.len(),
{
    if s.len() == 0 {
        Map::empty()
    } else {
        map_of(s.drop_last()).insert(s.last().0@, s.last().1@)
    }
}

/// A key is in the map exactly when some entry carries it.
pub proof fn lemma_map_of_contains(s: Seq<(String, FsEntry)>, k: Seq<char>)
    ensures
        map_of(s).contains_key(k) <==> exists|i: int| 0 <= i < s.len() && (#[trigger] s[i]).0@ == k,
    decreases s.len(),
{
    if s.len() > 0 {
        lemma_map_of_contains(s.drop_last(), k);
        if s.last().0@ == k {
            assert(s[s.len() - 1].0@ == k);
        } else if map_of(s).contains_key(k) {
            let i = choose|i: int| 0 <= i < s.len() - 1 && (#[trigger] s.drop_last()[i]).0@ == k;
            assert(s[i].0@ == k);
        } else if exists|i: int| 0 <= i < s.len() && (#[trigger] s[i]).0@ == k {
            let i = choose|i: int| 0 <= i < s.len() && (#[trigger] s[i]).0@ == k;
            assert(s.drop_last()[i].0@ == k);
        }
    }
}

/// With distinct keys, the map sends each entry's key to its value.
pub proof fn lemma_map_of_index(s: Seq<(String, FsEntry)>, i: int)
    requires
        distinct_keys(s),
        0 <= i < s.len(),
    ensures
        map_of(s).contains_key(s[i].0@),
        map_of(s)[s[i].0@] == s[i].1@,
    decreases s.len(),
{
    if i == s.len() - 1 {
    } else {
        assert(distinct_keys(s.drop_last())) by {
            assert(forall|a: int, b: int|
                0 <= a < b < s.len() - 1 ==> (#[trigger] s.drop_last()[a]).0@ != (
                #[trigger] s.drop_last()[b]).0@);
        }
        lemma_map_of_index(s.drop_last(), i);
        assert(s.drop_last()[i] == s[i]);
        assert(s[i].0@ != s.last().0@);
    }
}

/// Removing an entry removes its key from the map.
pub proof fn lemma_map_of_remove(s: Seq<(String, FsEntry)>, i: int)
    requires
        distinct_keys(s),
        0 <= i < s.len(),
    ensures
        distinct_keys(s.remove(i)),
        map_of(s.remove(i)) == map_of(s).remove(s[i].0@),
    decreases s.len(),
{
    let k = s[i].0@;
    assert(distinct_keys(s.remove(i))) by {
        assert(forall|a: int, b: int|
            0 <= a < b < s.len() - 1 ==> (#[trigger] s.remove(i)[a]).0@ != (
            #[trigger] s.remove(i)[b]).0@);
    }
    if i == s.len() - 1 {
        assert(s.remove(i) =~= s.drop_last());
        lemma_map_of_contains(s.drop_last(), k);
        assert(forall|j: int| 0 <= j < s.len() - 1 ==> (#[trigger] s[j]).0@ != k);
        assert(forall|j: int|
            0 <= j < s.len() - 1 ==> (#[trigger] s.drop_last()[j]).0@ == s[j].0@);
        assert(!map_of(s.drop_last()).contains_key(k));
        assert(map_of(s.drop_last()) =~= map_of(s).remove(k));
    } else {
        let t = s.remove(i);
        assert(distinct_keys(s.drop_last())) by {
            assert(forall|a: int, b: int|
                0 <= a < b < s.len() - 1 ==> (#[trigger] s.drop_last()[a]).0@ != (
                #[trigger] s.drop_last()[b]).0@);
        }
        lemma_map_of_remove(s.drop_last(), i);
        assert(t.drop_last() =~= s.drop_last().remove(i));
        assert(t.last() == s.last());
        assert(s.drop_last()[i] == s[i]);
        assert(k != s.last().0@);
        assert(map_of(t) == map_of(s.drop_last()).remove(k).insert(s.last().0@, s.last().1@));
        assert(map_of(s.drop_last()).remove(k).insert(s.last().0@, s.last().1@) =~= map_of(
            s.drop_last(),
        ).insert(s.last().0@, s.last().1@).remove(k));
    }
}

/// Copies a byte vector.
fn clone_bytes(v: &Vec<u8>) -> (r: Vec<u8>)
    ensures
        r@ == v@,
{
    let mut r: Vec<u8> = Vec::new();
    let mut i: usize = 0;
    while i < v.len()
        invariant
            i <= v@.len(),
            r@ == v@.subrange(0, i as int),
        decreases v@.len() - i,
    {
        r.push(v[i]);
        proof {
            assert(r@ =~= v@.subrange(0, i + 1));
        }
        i = i + 1;
    }
    proof {
        assert(v@.subrange(0, i as int) =~= v@);
    }
    r
}

/// The device a new entry at `path` would live on: the device of the entry
/// already there, else of its parent directory, else the default device 0.
pub open spec fn spec_device_target(m: Map<Seq<char>, EntryView>, path: Seq<char>) -> u64 {
    if m.contains_key(path) {
        m[path].device
    } else if m.contains_key(spec_parent(path)) {
        m[spec_parent(path)].device
    } else {
        0
    }
}

/// What a rename does: it fails on a missing source, with the distinguished
/// cross-device error when source and destination devices differ, and on a
/// locked source or destination; otherwise it atomically moves the entry,
/// replacing whatever the destination held.
pub open spec fn spec_rename(m: Map<Seq<char>, EntryView>, src: Seq<char>, dst: Seq<char>) -> Result<
    Map<Seq<char>, EntryView>,
    FsError,
> {
    if !m.contains_key(src) {
        Err(FsError::NotFound)
    } else if m[src].device != spec_device_target(m, dst) {
        Err(FsError::CrossDevice)
    } else if m[src].locked || (m.contains_key(dst) && m[dst].locked) {
        Err(FsError::Denied)
    } else {
        Ok(m.remove(src).insert(dst, m[src]))
    }
}

/// What a content copy does: it fails on a missing or directory source, a
/// directory destination, and a locked destination; otherwise it writes a
/// fresh unlocked file with the source's bytes on the destination's device.
pub open spec fn spec_copy(m: Map<Seq<char>, EntryView>, src: Seq<char>, dst: Seq<char>) -> Result<
    Map<Seq<char>, EntryView>,
    FsError,
> {
    if !m.contains_key(src) {
        Err(FsError::NotFound)
    } else if m[src].is_dir {
        Err(FsError::IsDirectory)
    } else if m.contains_key(dst) && m[dst].is_dir {
        Err(FsError::IsDirectory)
    } else if m.contains_key(dst) && m[dst].locked {
        Err(FsError::Denied)
    } else {
        Ok(
            m.insert(
                dst,
                EntryView {
                    is_dir: false,
                    data: m[src].data,
                    device: spec_device_target(m, dst),
                    locked: false,
                },
            ),
        )
    }
}

/// What removing a file does: it fails on a missing entry, a directory and
/// a locked entry; otherwise the entry is gone.
pub open spec fn spec_remove(m: Map<Seq<char>, EntryView>, path: Seq<char>) -> Result<
    Map<Seq<char>, EntryView>,
    FsError,
> {
    if !m.contains_key(path) {
        Err(FsError::NotFound)
    } else if m[path].is_dir {
        Err(FsError::IsDirectory)
    } else if m[path].locked {
        Err(FsError::Denied)
    } else {
        Ok(m.remove(path))
    }
}

/// The prefix every child path of `dir` starts with.
pub open spec fn spec_child_base(dir: Seq<char>) -> Seq<char> {
    if dir.len() == 0 {
        dir
    } else if dir.last() == '/' {
        dir
    } else {
        dir + seq!['/']
    }
}

/// Is `n` the name of a child of `dir` in `m`: non-empty, without a
/// separator, and naming an entry directly inside `dir`?
pub open spec fn spec_is_child_name(
    m: Map<Seq<char>, EntryView>,
    dir: Seq<char>,
    n: Seq<char>,
) -> bool {
    n.len() > 0 && (forall|i: int| 0 <= i < n.len() ==> n[i] != '/') && m.contains_key(
        spec_join(dir, n),
    )
}

/// Splits a path into the name it has as a direct child of `dir`, if it is
/// one.
pub open spec fn spec_child_split(dir: Seq<char>, p: Seq<char>) -> Option<Seq<char>> {
    let base = spec_child_base(dir);
    if p.len() > base.len() && p.subrange(0, base.len() as int) == base && (forall|i: int|
        base.len() <= i < p.len() ==> p[i] != '/') {
        Some(p.subrange(base.len() as int, p.len() as int))
    } else {
        None
    }
}

/// Joining a child name onto a directory prepends the child prefix.
pub proof fn lemma_join_base(dir: Seq<char>, n: Seq<char>)
    ensures
        spec_join(dir, n) == spec_child_base(dir) + n,
{
    if dir.len() == 0 {
        assert(spec_join(dir, n) =~= spec_child_base(dir) + n);
    }
}

/// A joined child name splits back off.
pub proof fn lemma_child_split_join(dir: Seq<char>, n: Seq<char>)
    requires
        n.len() > 0,
        forall|i: int| 0 <= i < n.len() ==> n[i] != '/',
    ensures
        spec_child_split(dir, spec_join(dir, n)) == Some(n),
{
    lemma_join_base(dir, n);
    let base = spec_child_base(dir);
    let p = base + n;
    assert(p.subrange(0, base.len() as int) =~= base);
    assert(p.subrange(base.len() as int, p.len() as int) =~= n);
}

/// A split child name joins back on.
pub proof fn lemma_child_split_sound(dir: Seq<char>, p: Seq<char>)
    requires
        spec_child_split(dir, p) is Some,
    ensures
        ({
            let n = spec_child_split(dir, p)->0;
            &&& n.len() > 0
            &&& forall|i: int| 0 <= i < n.len() ==> n[i] != '/'
            &&& spec_join(dir, p.subrange(spec_child_base(dir).len() as int, p.len() as int)) == p
        }),
{
    let base = spec_child_base(dir);
    let n = p.subrange(base.len() as int, p.len() as int);
    lemma_join_base(dir, n);
    assert(base + n =~= p);
}

/// Builds the child prefix of `dir`.
fn child_base(dir: &String) -> (r: String)
    ensures
        r@ == spec_child_base(dir@),
{
    let dlen = dir.as_str().unicode_len();
    if dlen == 0 {
        dir.clone()
    } else if dir.as_str().get_char(dlen - 1) == '/' {
        dir.clone()
    } else {
        let mut r = dir.clone();
        r.append("/");
        proof {
            reveal_strlit("/");
            assert(r@ =~= dir@ + seq!['/']);
        }
        r
    }
}

/// Does `p` start with `base`?
fn str_starts_with(p: &String, base: &String) -> (r: bool)
    ensures
        r == (p@.len() >= base@.len() && p@.subrange(0, base@.len() as int) == base@),
{
    let plen = p.as_str().unicode_len();
    let blen = base.as_str().unicode_len();
    if plen < blen {
        return false;
    }
    let mut i: usize = 0;
    while i < blen
        invariant
            i <= blen == base@.len() <= p@.len(),
            forall|j: int| 0 <= j < i ==> p@[j] == base@[j],
        decreases blen - i,
    {
        if p.as_str().get_char(i) != base.as_str().get_char(i) {
            proof {
                assert(p@.subrange(0, base@.len() as int)[i as int] != base@[i as int]);
            }
            return false;
        }
        i = i + 1;
    }
    proof {
        assert(p@.subrange(0, base@.len() as int) =~= base@);
    }
    true
}

/// Is `p` free of separators from position `a` on?
fn no_sep_from(p: &String, a: usize) -> (r: bool)
    requires
        a <= p@.len(),
    ensures
        r == (forall|i: int| a <= i < p@.len() ==> p@[i] != '/'),
{
    let plen = p.as_str().unicode_len();
    let mut i = a;
    while i < plen
        invariant
            a <= i <= plen == p@.len(),
            forall|j: int| a <= j < i ==> p@[j] != '/',
        decreases plen - i,
    {
        if p.as_str().get_char(i) == '/' {
            return false;
        }
        i = i + 1;
    }
    true
}

/// What the model shows of one path.
pub struct PathView {
    pub present: bool,
    pub is_dir: bool,
    pub has_entries: bool,
}

/// A path-like value that can say whether it is an empty directory.
pub trait PathExt {
    /// What emptiness means for this value.
    spec fn spec_is_empty(&self) -> bool;

    /// Is this an existing directory with nothing in it?
    fn is_empty(&self) -> (r: bool)
        ensures
            r == self.spec_is_empty(),
    ;
}

impl PathExt for PathView {
    open spec fn spec_is_empty(&self) -> bool {
        self.present && self.is_dir && !self.has_entries
    }

    fn is_empty(&self) -> (r: bool) {
        self.present && self.is_dir && !self.has_entries
    }
}

/// The in-memory filesystem model: a finite map from paths to entries,
/// held as a list with distinct keys.
pub struct ModelFs {
    entries: Vec<(String, FsEntry)>,
}

impl View for ModelFs {
    type V = Map<Seq<char>, EntryView>;

    closed spec fn view(&self) -> Map<Seq<char>, EntryView> {
        map_of(self.entries@)
    }
}

impl ModelFs {
    /// No key appears twice.
    pub closed spec fn wf(&self) -> bool {
        distinct_keys(self.entries@)
    }

    /// An empty filesystem.
    pub fn new() -> (r: ModelFs)
        ensures
            r.wf(),
            r@ == Map::<Seq<char>, EntryView>::empty(),
    {
        ModelFs { entries: Vec::new() }
    }

    /// The index holding `path`, if any.
    fn find(&self, path: &String) -> (r: Option<usize>)
        requires
            self.wf(),
        ensures
            match r {
                Some(i) => i < self.entries@.len() && self.entries@[i as int].0@ == path@
                    && self@.contains_key(path@) && self@[path@] == self.entries@[i as int].1@,
                None => !self@.contains_key(path@),
            },
    {
        let mut i: usize = 0;
        while i < self.entries.len()
            invariant
                self.wf(),
                i <= self.entries@.len(),
                forall|j: int| 0 <= j < i ==> (#[trigger] self.entries@[j]).0@ != path@,
            decreases self.entries@.len() - i,
        {
            if self.entries[i].0 == *path {
                proof {
                    lemma_map_of_index(self.entries@, i as int);
                }
                return Some(i);
            }
            i = i + 1;
        }
        proof {
            lemma_map_of_contains(self.entries@, path@);
        }
        None
    }

    /// Is there an entry at `path`?
    pub fn contains(&self, path: &String) -> (r: bool)
        requires
            self.wf(),
        ensures
            r == self@.contains_key(path@),
    {
        self.find(path).is_some()
    }

    /// Is the entry at `path` a directory?
    pub fn is_dir(&self, path: &String) -> (r: bool)
        requires
            self.wf(),
        ensures
            r == (self@.contains_key(path@) && self@[path@].is_dir),
    {
        match self.find(path) {
            Some(i) => self.entries[i].1.is_dir,
            None => false,
        }
    }

    /// The bytes of the entry at `path`, if there is one.
    pub fn data_at(&self, path: &String) -> (r: Option<Vec<u8>>)
        requires
            self.wf(),
        ensures
            match r {
                Some(d) => self@.contains_key(path@) && d@ == self@[path@].data,
                None => !self@.contains_key(path@),
            },
    {
        match self.find(path) {
            Some(i) => Some(clone_bytes(&self.entries[i].1.data)),
            None => None,
        }
    }

    /// The device an entry at `path` lives on or would be created on.
    pub fn device_target(&self, path: &String) -> (r: u64)
        requires
            self.wf(),
        ensures
            r == spec_device_target(self@, path@),
    {
        match self.find(path) {
            Some(i) => self.entries[i].1.device,
            None => {
                let par = parent_of(path);
                match self.find(&par) {
                    Some(j) => self.entries[j].1.device,
                    None => 0,
                }
            },
        }
    }

    /// Puts `e` at `path`, replacing whatever was there.
    pub fn set_entry(&mut self, path: String, e: FsEntry)
        requires
            old(self).wf(),
        ensures
            final(self).wf(),
            final(self)@ == old(self)@.insert(path@, e@),
    {
        let ghost s0 = self.entries@;
        match self.find(&path) {
            Some(i) => {
                proof {
                    lemma_map_of_remove(s0, i as int);
                    assert(forall|j: int|
                        0 <= j < s0.remove(i as int).len() ==> (#[trigger] s0.remove(
                            i as int,
                        )[j]).0@ != path@);
                }
                let _ = self.entries.remove(i);
                let ghost s1 = self.entries@;
                self.entries.push((path, e));
                proof {
                    assert(self.entries@.drop_last() =~= s1);
                    assert(map_of(self.entries@) =~= map_of(s0).insert(
                        self.entries@.last().0@,
                        e@,
                    ));
                    assert(forall|a: int, b: int|
                        0 <= a < b < self.entries@.len() ==> (#[trigger] self.entries@[a]).0@ != (
                        #[trigger] self.entries@[b]).0@);
                }
            },
            None => {
                proof {
                    lemma_map_of_contains(s0, path@);
                }
                self.entries.push((path, e));
                proof {
                    assert(self.entries@.drop_last() =~= s0);
                    assert(forall|a: int, b: int|
                        0 <= a < b < self.entries@.len() ==> (#[trigger] self.entries@[a]).0@ != (
                        #[trigger] self.entries@[b]).0@);
                }
            },
        }
    }

    /// Atomically renames `src` to `dst`, per [`spec_rename`].
    pub fn rename(&mut self, src: &String, dst: &String) -> (r: Result<(), FsError>)
        requires
            old(self).wf(),
        ensures
            final(self).wf(),
            match spec_rename(old(self)@, src@, dst@) {
                Ok(m1) => r is Ok && final(self)@ == m1,
                Err(e) => r == Err::<(), FsError>(e) && final(self)@ == old(self)@,
            },
    {
        let i = match self.find(src) {
            Some(i) => i,
            None => {
                return Err(FsError::NotFound);
            },
        };
        let sdev = self.entries[i].1.device;
        let tdev = self.device_target(dst);
        if sdev != tdev {
            return Err(FsError::CrossDevice);
        }
        let slocked = self.entries[i].1.locked;
        let dlocked = match self.find(dst) {
            Some(j) => self.entries[j].1.locked,
            None => false,
        };
        if slocked || dlocked {
            return Err(FsError::Denied);
        }
        proof {
            lemma_map_of_remove(self.entries@, i as int);
        }
        let (_, e) = self.entries.remove(i);
        self.set_entry(dst.clone(), e);
        Ok(())
    }

    /// Copies the bytes of `src` to a fresh file at `dst`, per [`spec_copy`].
    pub fn copy_file(&mut self, src: &String, dst: &String) -> (r: Result<(), FsError>)
        requires
            old(self).wf(),
        ensures
            final(self).wf(),
            match spec_copy(old(self)@, src@, dst@) {
                Ok(m1) => r is Ok && final(self)@ == m1,
                Err(e) => r == Err::<(), FsError>(e) && final(self)@ == old(self)@,
            },
    {
        let i = match self.find(src) {
            Some(i) => i,
            None => {
                return Err(FsError::NotFound);
            },
        };
        if self.entries[i].1.is_dir {
            return Err(FsError::IsDirectory);
        }
        match self.find(dst) {
            Some(j) => {
                if self.entries[j].1.is_dir {
                    return Err(FsError::IsDirectory);
                }
                if self.entries[j].1.locked {
                    return Err(FsError::Denied);
                }
            },
            None => {},
        }
        let data = clone_bytes(&self.entries[i].1.data);
        let device = self.device_target(dst);
        let e = FsEntry { is_dir: false, data, device, locked: false };
        self.set_entry(dst.clone(), e);
        Ok(())
    }

    /// The names of the children of `dir`: every name of a child is listed
    /// and everything listed is the name of a child.
    pub fn dir_entry_names(&self, dir: &String) -> (r: Vec<String>)
        requires
            self.wf(),
        ensures
            forall|j: int| 0 <= j < r@.len() ==> spec_is_child_name(self@, dir@, (#[trigger] r@[j])@),
            forall|n: Seq<char>|
                spec_is_child_name(self@, dir@, n) ==> exists|j: int|
                    0 <= j < r@.len() && (#[trigger] r@[j])@ == n,
    {
        let base = child_base(dir);
        let blen = base.as_str().unicode_len();
        let mut r: Vec<String> = Vec::new();
        let mut i: usize = 0;
        while i < self.entries.len()
            invariant
                self.wf(),
                i <= self.entries@.len(),
                base@ == spec_child_base(dir@),
                blen == base@.len(),
                forall|j: int|
                    0 <= j < r@.len() ==> (#[trigger] r@[j])@.len() > 0 && (forall|c: int|
                        0 <= c < r@[j]@.len() ==> r@[j]@[c] != '/') && exists|e: int|
                        0 <= e < self.entries@.len() && (#[trigger] self.entries@[e]).0@
                            == spec_join(dir@, r@[j]@),
                forall|e: int|
                    0 <= e < i && spec_child_split(dir@, (#[trigger] self.entries@[e]).0@) is Some
                        ==> exists|j: int|
                        0 <= j < r@.len() && (#[trigger] r@[j])@ == spec_child_split(
                            dir@,
                            self.entries@[e].0@,
                        )->0,
            decreases self.entries@.len() - i,
        {
            let p = &self.entries[i].0;
            let plen = p.as_str().unicode_len();
            if plen > blen && str_starts_with(p, &base) && no_sep_from(p, blen) {
                let name = p.as_str().substring_char(blen, plen).to_owned();
                proof {
                    assert(spec_child_split(dir@, p@) == Some(name@));
                    lemma_child_split_sound(dir@, p@);
                    assert(spec_join(dir@, name@) == p@);
                }
                let ghost r0 = r@;
                r.push(name);
                proof {
                    assert(forall|j: int| 0 <= j < r0.len() ==> r@[j] == r0[j]);
                    assert((#[trigger] self.entries@[i as int]).0@ == spec_join(
                        dir@,
                        r@[r@.len() - 1]@,
                    ));
                    assert forall|e: int|
                        0 <= e < i + 1 && spec_child_split(
                            dir@,
                            (#[trigger] self.entries@[e]).0@,
                        ) is Some implies exists|j: int|
                        0 <= j < r@.len() && (#[trigger] r@[j])@ == spec_child_split(
                            dir@,
                            self.entries@[e].0@,
                        )->0 by {
                        if e == i as int {
                            assert(r@[r@.len() - 1]@ == spec_child_split(
                                dir@,
                                self.entries@[e].0@,
                            )->0);
                        } else {
                            let j = choose|j: int|
                                0 <= j < r0.len() && (#[trigger] r0[j])@ == spec_child_split(
                                    dir@,
                                    self.entries@[e].0@,
                                )->0;
                            assert(r@[j] == r0[j]);
                        }
                    }
                }
            } else {
                proof {
                    assert(spec_child_split(dir@, p@) is None);
                }
            }
            i = i + 1;
        }
        proof {
            assert forall|j: int| 0 <= j < r@.len() implies spec_is_child_name(
                self@,
                dir@,
                (#[trigger] r@[j])@,
            ) by {
                lemma_map_of_contains(self.entries@, spec_join(dir@, r@[j]@));
            }
            assert forall|n: Seq<char>| spec_is_child_name(self@, dir@, n) implies exists|j: int|
                0 <= j < r@.len() && (#[trigger] r@[j])@ == n by {
                lemma_map_of_contains(self.entries@, spec_join(dir@, n));
                let e = choose|e: int|
                    0 <= e < self.entries@.len() && (#[trigger] self.entries@[e]).0@ == spec_join(
                        dir@,
                        n,
                    );
                lemma_child_split_join(dir@, n);
            }
        }
        r
    }

    /// What the model shows of one path: whether an entry is present,
    /// whether it is a directory, and whether it has children.
    pub fn path_view(&self, path: &String) -> (r: PathView)
        requires
            self.wf(),
        ensures
            r.present == self@.contains_key(path@),
            r.is_dir == (self@.contains_key(path@) && self@[path@].is_dir),
            r.has_entries == exists|n: Seq<char>| spec_is_child_name(self@, path@, n),
    {
        let present = self.contains(path);
        let is_dir = self.is_dir(path);
        let names = self.dir_entry_names(path);
        let has_entries = names.len() > 0;
        proof {
            if names@.len() > 0 {
                assert(spec_is_child_name(self@, path@, names@[0]@));
            }
        }
        PathView { present, is_dir, has_entries }
    }

    /// Removes the file at `path`, per [`spec_remove`].
    pub fn remove_file(&mut self, path: &String) -> (r: Result<(), FsError>)
        requires
            old(self).wf(),
        ensures
            final(self).wf(),
            match spec_remove(old(self)@, path@) {
                Ok(m1) => r is Ok && final(self)@ == m1,
                Err(e) => r == Err::<(), FsError>(e) && final(self)@ == old(self)@,
            },
    {
        let i = match self.find(path) {
            Some(i) => i,
            None => {
                return Err(FsError::NotFound);
            },
        };
        if self.entries[i].1.is_dir {
            return Err(FsError::IsDirectory);
        }
        if self.entries[i].1.locked {
            return Err(FsError::Denied);
        }
        proof {
            lemma_map_of_remove(self.entries@, i as int);
        }
        let _ = self.entries.remove(i);
        Ok(())
    }
}

} // verus!

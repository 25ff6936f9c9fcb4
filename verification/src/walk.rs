//! Resolution of a dentry to an absolute path.

use vstd::prelude::*;

use crate::bytes::splice;
use crate::dirs::SLASH;
use crate::event::PATH_BUF_SIZE;
use crate::kernel::field_at;
use crate::kernel::{field_addr, Action, Kernel};

verus! {

/// Where a dentry holds its name (a `struct qstr`), for Linux 6.12 on x86_64
/// like all offsets into kernel structures here.
pub const DENTRY_D_NAME_OFF: u64 = 0x20;

/// Where a dentry points to its parent.
pub const DENTRY_D_PARENT_OFF: u64 = 0x18;

/// Where a dentry points to its super block.
pub const DENTRY_D_SB_OFF: u64 = 0x68;

/// Where a `struct qstr` points to the bytes of the name.
pub const QSTR_NAME_OFF: u64 = 0x08;

/// Where a `struct qstr` holds the length of the name.
pub const QSTR_LEN_OFF: u64 = 0x04;

/// Where a super block points to the root dentry.
pub const SUPER_BLOCK_S_ROOT_OFF: u64 = 0x68;

/// The most components that a path may have. A path that fits in a path area
/// has at most 127 components of one byte each, so the bound resolves every
/// path that a record can hold.
pub const MAX_DEPTH: u32 = 128;

/// The most bytes that one component may have.
pub const NAME_MAX: u64 = 255;

/// What a walk waits for.
#[derive(Debug, Clone, Copy, PartialEq, Eq)]
pub enum WalkStage {
    /// The dentry's super block.
    SuperBlock,
    /// The root dentry of the super block `sb`.
    Root { sb: u64 },
    /// The address of the current dentry's name.
    NamePtr,
    /// The length of the name at `name`.
    NameLen { name: u64 },
    /// The copy of the `len` bytes of the name at `name`.
    Name { name: u64, len: usize },
    /// The current dentry's parent.
    Parent,
    /// Nothing: the walk is over. `len` is the number of bytes that it left
    /// at the start of its area, or 0 if it did not resolve the path.
    Done { len: usize },
}

/// A walk up the dentry chain, from a dentry to the root of its file system.
///
/// The path is put together from its end, in the last bytes of the area that
/// starts at `base` in the record and is `size` bytes long, and moved to the
/// area's start when it is complete: no other memory is used. What is built so
/// far stands from `pos` on.
#[derive(Debug, Clone, Copy, PartialEq, Eq)]
pub struct PathWalk {
    pub base: usize,
    pub size: usize,
    pub dentry: u64,
    pub root: u64,
    pub pos: usize,
    pub depth: u32,
    pub stage: WalkStage,
}

impl PathWalk {
    /// The walk from `dentry`, at its start.
    pub open spec fn start(dentry: u64, base: usize, size: usize) -> PathWalk {
        PathWalk {
            base,
            size,
            dentry,
            root: 0,
            pos: 0,
            depth: 0,
            stage: if size < 2 {
                WalkStage::Done { len: 0 }
            } else {
                WalkStage::SuperBlock
            },
        }
    }

    /// The walk is over.
    pub open spec fn is_done(self) -> bool {
        self.stage is Done
    }

    /// What is built so far, and the name to be copied, lie in the area.
    pub open spec fn wf(self) -> bool {
        &&& self.base + self.size <= usize::MAX
        &&& match self.stage {
            WalkStage::Done { len } => len <= self.size,
            WalkStage::SuperBlock | WalkStage::Root { .. } => 2 <= self.size,
            WalkStage::Name { name, len } => 1 <= len && len < self.pos < self.size,
            _ => self.pos < self.size,
        }
    }

    /// What the walk wants done next.
    pub open spec fn wants(self) -> Action {
        match self.stage {
            WalkStage::SuperBlock => Action::ReadPtr {
                addr: field_addr(self.dentry, DENTRY_D_SB_OFF),
            },
            WalkStage::Root { sb } => Action::ReadPtr {
                addr: field_addr(sb, SUPER_BLOCK_S_ROOT_OFF),
            },
            WalkStage::NamePtr => Action::ReadPtr {
                addr: field_addr(self.dentry, (DENTRY_D_NAME_OFF + QSTR_NAME_OFF) as u64),
            },
            WalkStage::NameLen { .. } => Action::ReadU32 {
                addr: field_addr(self.dentry, (DENTRY_D_NAME_OFF + QSTR_LEN_OFF) as u64),
            },
            WalkStage::Name { name, len } => Action::CopyName {
                from: name,
                at: (self.base + self.pos - len) as usize,
                len,
            },
            WalkStage::Parent => Action::ReadPtr {
                addr: field_addr(self.dentry, DENTRY_D_PARENT_OFF),
            },
            WalkStage::Done { .. } => Action::Leave,
        }
    }

    /// The walk, waiting for something else.
    pub open spec fn at(self, stage: WalkStage) -> PathWalk {
        PathWalk { stage, ..self }
    }

    /// The walk, given up.
    pub open spec fn failed(self) -> PathWalk {
        self.at(WalkStage::Done { len: 0 })
    }

    /// The walk and the record once `reply` has come.
    ///
    /// A read that faults gives the walk up, and so does a name that is empty,
    /// longer than a name can be, or too long for what is left of the area, and
    /// a chain that is too deep.
    pub open spec fn after(self, reply: Option<u64>, record: Seq<u8>) -> (PathWalk, Seq<u8>) {
        match (self.stage, reply) {
            (WalkStage::Done { .. }, _) => (self, record),
            (_, None) => (self.failed(), record),
            (WalkStage::SuperBlock, Some(sb)) => (self.at(WalkStage::Root { sb }), record),
            (WalkStage::Root { .. }, Some(root)) => if root == self.dentry {
                (
                    PathWalk { root, ..self.at(WalkStage::Done { len: 2 }) },
                    splice(record, self.base as int, seq![SLASH, 0u8]),
                )
            } else {
                (
                    PathWalk {
                        root,
                        pos: (self.size - 1) as usize,
                        depth: 0,
                        ..self.at(WalkStage::NamePtr)
                    },
                    record.update(self.base + self.size - 1, 0u8),
                )
            },
            (WalkStage::NamePtr, Some(name)) => (self.at(WalkStage::NameLen { name }), record),
            (WalkStage::NameLen { name }, Some(len)) => if 1 <= len <= NAME_MAX && len < self.pos {
                (self.at(WalkStage::Name { name, len: len as usize }), record)
            } else {
                (self.failed(), record)
            },
            (WalkStage::Name { name, len }, Some(_)) => {
                let pos = (self.pos - len - 1) as usize;
                (
                    PathWalk { pos, ..self.at(WalkStage::Parent) },
                    record.update(self.base + pos, SLASH),
                )
            },
            (WalkStage::Parent, Some(parent)) => {
                let up = PathWalk { dentry: parent, ..self };
                if parent == self.root {
                    (
                        up.at(WalkStage::Done { len: (self.size - self.pos) as usize }),
                        splice(
                            record,
                            self.base as int,
                            record.subrange(self.base + self.pos, self.base + self.size),
                        ),
                    )
                } else if self.depth + 1 >= MAX_DEPTH {
                    (up.failed(), record)
                } else {
                    (
                        PathWalk { depth: (self.depth + 1) as u32, ..up.at(WalkStage::NamePtr) },
                        record,
                    )
                }
            },
        }
    }

    /// More than the number of replies that the walk can still take.
    pub open spec fn rank(self) -> nat {
        let levels = if self.depth < MAX_DEPTH {
            (MAX_DEPTH - self.depth) as nat
        } else {
            0
        };
        match self.stage {
            WalkStage::SuperBlock => 4 * MAX_DEPTH as nat + 6,
            WalkStage::Root { .. } => 4 * MAX_DEPTH as nat + 5,
            WalkStage::NamePtr => 4 * levels + 4,
            WalkStage::NameLen { .. } => 4 * levels + 3,
            WalkStage::Name { .. } => 4 * levels + 2,
            WalkStage::Parent => 4 * levels + 1,
            WalkStage::Done { .. } => 0,
        }
    }

    /// What the walk wants done next; [`Action::Leave`] once it is over.
    pub fn action(&self) -> (action: Action)
        requires
            self.wf(),
        ensures
            action == self.wants(),
    {
        match self.stage {
            WalkStage::SuperBlock => Action::ReadPtr {
                addr: field_at(self.dentry, DENTRY_D_SB_OFF),
            },
            WalkStage::Root { sb } => Action::ReadPtr {
                addr: field_at(sb, SUPER_BLOCK_S_ROOT_OFF),
            },
            WalkStage::NamePtr => Action::ReadPtr {
                addr: field_at(self.dentry, DENTRY_D_NAME_OFF + QSTR_NAME_OFF),
            },
            WalkStage::NameLen { .. } => Action::ReadU32 {
                addr: field_at(self.dentry, DENTRY_D_NAME_OFF + QSTR_LEN_OFF),
            },
            WalkStage::Name { name, len } => Action::CopyName {
                from: name,
                at: self.base + self.pos - len,
                len,
            },
            WalkStage::Parent => Action::ReadPtr {
                addr: field_at(self.dentry, DENTRY_D_PARENT_OFF),
            },
            WalkStage::Done { .. } => Action::Leave,
        }
    }

    /// Takes the reply to the action that the walk wanted.
    pub fn step(&mut self, reply: Option<u64>, record: &mut [u8])
        requires
            old(self).wf(),
            old(self).base + old(self).size <= old(record)@.len(),
        ensures
            (*final(self), final(record)@) == old(self).after(reply, old(record)@),
            final(record)@.len() == old(record)@.len(),
            final(self).wf(),
            !old(self).is_done() ==> final(self).rank() < old(self).rank(),
    {
        if let WalkStage::Done { .. } = self.stage {
            return ;
        }
        let value: u64 = match reply {
            Some(value) => value,
            None => {
                self.stage = WalkStage::Done { len: 0 };
                return ;
            },
        };
        match self.stage {
            WalkStage::SuperBlock => {
                self.stage = WalkStage::Root { sb: value };
            },
            WalkStage::Root { .. } => {
                self.root = value;
                if value == self.dentry {
                    record[self.base] = SLASH;
                    record[self.base + 1] = 0;
                    assert(record@ =~= splice(old(record)@, self.base as int, seq![SLASH, 0u8]));
                    self.stage = WalkStage::Done { len: 2 };
                } else {
                    self.pos = self.size - 1;
                    self.depth = 0;
                    record[self.base + self.pos] = 0;
                    self.stage = WalkStage::NamePtr;
                }
            },
            WalkStage::NamePtr => {
                self.stage = WalkStage::NameLen { name: value };
            },
            WalkStage::NameLen { name } => {
                if value == 0 || value > NAME_MAX || value >= self.pos as u64 {
                    self.stage = WalkStage::Done { len: 0 };
                } else {
                    self.stage = WalkStage::Name { name, len: value as usize };
                }
            },
            WalkStage::Name { name, len } => {
                self.pos = self.pos - len - 1;
                record[self.base + self.pos] = SLASH;
                self.stage = WalkStage::Parent;
            },
            WalkStage::Parent => {
                self.dentry = value;
                if value == self.root {
                    move_down(record, self.base, self.base + self.pos, self.size - self.pos);
                    self.stage = WalkStage::Done { len: self.size - self.pos };
                } else if self.depth >= MAX_DEPTH - 1 {
                    // A partial walk is no path: it could make a suffix appear
                    // to belong to a monitored directory.
                    self.stage = WalkStage::Done { len: 0 };
                } else {
                    self.depth = self.depth + 1;
                    self.stage = WalkStage::NamePtr;
                }
            },
            WalkStage::Done { .. } => {},
        }
    }
}

/// Starts the walk that writes the absolute path of `dentry`, NUL-terminated,
/// into the `size` bytes from `base` on.
pub fn build_path(dentry: u64, base: usize, size: usize) -> (walk: PathWalk)
    ensures
        walk == PathWalk::start(dentry, base, size),
        base + size <= usize::MAX ==> walk.wf(),
{
    PathWalk {
        base,
        size,
        dentry,
        root: 0,
        pos: 0,
        depth: 0,
        stage: if size < 2 {
            WalkStage::Done { len: 0 }
        } else {
            WalkStage::SuperBlock
        },
    }
}

/// Copies the `len` bytes at `from` to `to`, which does not lie behind them.
fn move_down(buf: &mut [u8], to: usize, from: usize, len: usize)
    requires
        to <= from,
        from + len <= old(buf).len(),
    ensures
        final(buf)@ == splice(old(buf)@, to as int, old(buf)@.subrange(from as int, from + len)),
{
    let mut i: usize = 0;
    let ghost piece = buf@.subrange(from as int, from + len);
    while i < len
        invariant
            i <= len,
            to <= from,
            from + len <= buf.len(),
            buf@.len() == old(buf)@.len(),
            piece == old(buf)@.subrange(from as int, from + len),
            forall|j: int| 0 <= j < i ==> #[trigger] buf@[to + j] == piece[j],
            forall|j: int| 0 <= j < to ==> buf@[j] == old(buf)@[j],
            forall|j: int| to + i <= j < buf@.len() ==> buf@[j] == old(buf)@[j],
        decreases len - i,
    {
        buf[to + i] = buf[from + i];
        i += 1;
    }
    assert(buf@ =~= splice(old(buf)@, to as int, piece)) by {
        let spliced = splice(old(buf)@, to as int, piece);
        assert forall|j: int| 0 <= j < buf@.len() implies buf@[j] == spliced[j] by {
            if to <= j < to + len {
                assert(buf@[to + (j - to)] == piece[j - to]);
            }
        }
    }
}

impl Kernel {
    /// The name of a dentry, if it can be read and is a name.
    pub open spec fn name(self, dentry: u64) -> Option<Seq<u8>> {
        let ptr = self.ptr(dentry, (DENTRY_D_NAME_OFF + QSTR_NAME_OFF) as u64);
        let len = self.read_number(
            field_addr(dentry, (DENTRY_D_NAME_OFF + QSTR_LEN_OFF) as u64),
            4,
        );
        match (ptr, len) {
            (Some(ptr), Some(len)) if 1 <= len <= NAME_MAX => self.read(ptr, len as nat),
            _ => None,
        }
    }

    /// The parent of a dentry.
    pub open spec fn parent(self, dentry: u64) -> Option<u64> {
        self.ptr(dentry, DENTRY_D_PARENT_OFF)
    }

    /// The root of the file system that a dentry belongs to.
    pub open spec fn root(self, dentry: u64) -> Option<u64> {
        match self.ptr(dentry, DENTRY_D_SB_OFF) {
            Some(sb) => self.ptr(sb, SUPER_BLOCK_S_ROOT_OFF),
            None => None,
        }
    }

    /// The names from `root` down to `dentry`, each with a separator before
    /// it, if `root` is at most `depth` levels up.
    pub open spec fn path_below(self, root: u64, dentry: u64, depth: nat) -> Option<Seq<u8>>
        decreases depth,
    {
        if dentry == root {
            Some(Seq::empty())
        } else if depth == 0 {
            None
        } else {
            match (self.name(dentry), self.parent(dentry)) {
                (Some(name), Some(parent)) => match self.path_below(
                    root,
                    parent,
                    (depth - 1) as nat,
                ) {
                    Some(above) => Some(above.push(SLASH) + name),
                    None => None,
                },
                _ => None,
            }
        }
    }

    /// The absolute path of `dentry`, if the chain up to the root can be read,
    /// is not too deep, and the path and a NUL fit in `size` bytes.
    pub open spec fn resolve(self, dentry: u64, size: nat) -> Option<Seq<u8>> {
        match self.root(dentry) {
            Some(root) => {
                let path = if dentry == root {
                    Some(seq![SLASH])
                } else {
                    self.path_below(root, dentry, MAX_DEPTH as nat)
                };
                match path {
                    Some(path) if path.len() < size => Some(path),
                    _ => None,
                }
            },
            None => None,
        }
    }

    /// The walk and the record after this kernel has answered all that the
    /// walk wants.
    pub open spec fn run_walk(self, walk: PathWalk, record: Seq<u8>) -> (PathWalk, Seq<u8>)
        decreases walk.rank(),
    {
        if walk.is_done() {
            (walk, record)
        } else {
            let (reply, answered) = self.answer(walk.wants(), record);
            let (walk, record) = walk.after(reply, answered);
            self.run_walk(walk, record)
        }
    }
}

/// Where the walk stands after a name has been copied and the parent has been
/// asked for.
proof fn lemma_copy(k: Kernel, walk: PathWalk, record: Seq<u8>, ptr: u64, len: usize)
    requires
        walk.wf(),
        walk.base + walk.size <= record.len(),
        walk.stage == (WalkStage::Name { name: ptr, len }),
    ensures
        ({
            let (end, left) = k.run_walk(walk, record);
            match (k.read(ptr, len as nat), k.parent(walk.dentry)) {
                (Some(name), Some(parent)) => {
                    let pos = (walk.pos - name.len() - 1) as usize;
                    let built = splice(record, walk.base + pos, seq![SLASH] + name);
                    let next = PathWalk { pos, ..walk.at(WalkStage::Parent) };
                    let (next, built) = next.after(Some(parent), built);
                    k.run_walk(next, built) == (end, left)
                },
                _ => {
                    &&& end.stage == WalkStage::Done { len: 0 }
                    &&& left.len() == record.len()
                    &&& left.take(walk.base as int) == record.take(walk.base as int)
                    &&& left.skip(walk.base + walk.size) == record.skip(walk.base + walk.size)
                },
            }
        }),
{
    let (reply, copied) = k.answer(walk.wants(), record);
    match k.read(ptr, len as nat) {
        Some(name) => {
            let pos = (walk.pos - len - 1) as usize;
            let at_parent = PathWalk { pos, ..walk.at(WalkStage::Parent) };
            let built = splice(record, walk.base + pos, seq![SLASH] + name);
            assert(copied.update(walk.base + pos, SLASH) =~= built);
            assert(k.run_walk(walk, record) == k.run_walk(at_parent, built));
            if k.parent(walk.dentry) is None {
                let failed = at_parent.failed();
                assert(k.run_walk(at_parent, built) == k.run_walk(failed, built));
                assert(k.run_walk(failed, built) == (failed, built));
                assert(built.take(walk.base as int) =~= record.take(walk.base as int));
                assert(built.skip(walk.base + walk.size) =~= record.skip(walk.base + walk.size));
            }
        },
        None => {
            let failed = walk.failed();
            assert(k.run_walk(walk, record) == k.run_walk(failed, copied));
            assert(k.run_walk(failed, copied) == (failed, copied));
            assert(copied.take(walk.base as int) =~= record.take(walk.base as int));
            assert(copied.skip(walk.base + walk.size) =~= record.skip(walk.base + walk.size));
        },
    }
}

/// One turn of a walk's loop: where the walk stands after the current dentry's
/// name and parent have been asked for.
proof fn lemma_turn(k: Kernel, walk: PathWalk, record: Seq<u8>)
    requires
        walk.wf(),
        walk.base + walk.size <= record.len(),
        walk.stage is NamePtr,
    ensures
        ({
            let (end, left) = k.run_walk(walk, record);
            match (k.name(walk.dentry), k.parent(walk.dentry)) {
                (Some(name), Some(parent)) if name.len() < walk.pos => {
                    let pos = (walk.pos - name.len() - 1) as usize;
                    let built = splice(record, walk.base + pos, seq![SLASH] + name);
                    let next = PathWalk { pos, ..walk.at(WalkStage::Parent) };
                    let (next, built) = next.after(Some(parent), built);
                    k.run_walk(next, built) == (end, left)
                },
                _ => {
                    &&& end.stage == WalkStage::Done { len: 0 }
                    &&& left.len() == record.len()
                    &&& left.take(walk.base as int) == record.take(walk.base as int)
                    &&& left.skip(walk.base + walk.size) == record.skip(walk.base + walk.size)
                },
            }
        }),
{
    let d = walk.dentry;
    let name_ptr = k.ptr(d, (DENTRY_D_NAME_OFF + QSTR_NAME_OFF) as u64);
    let name_len = k.read_number(field_addr(d, (DENTRY_D_NAME_OFF + QSTR_LEN_OFF) as u64), 4);
    let failed = walk.failed();
    assert(k.run_walk(failed, record) == (failed, record));
    if let Some(name) = name_ptr {
        let at_len = walk.at(WalkStage::NameLen { name });
        assert(k.run_walk(walk, record) == k.run_walk(at_len, record));
        if let Some(len) = name_len {
            if 1 <= len <= NAME_MAX && len < walk.pos {
                let at_copy = walk.at(WalkStage::Name { name, len: len as usize });
                assert(k.run_walk(at_len, record) == k.run_walk(at_copy, record));
                lemma_copy(k, at_copy, record, name, len as usize);
            } else {
                assert(k.run_walk(at_len, record) == k.run_walk(failed, record));
                assert(k.read(name, len as nat) matches Some(bytes) ==> bytes.len() == len);
            }
        } else {
            assert(k.run_walk(at_len, record) == k.run_walk(failed, record));
        }
    } else {
        assert(k.run_walk(walk, record) == k.run_walk(failed, record));
    }
}

/// What a walk's loop comes to: the names above what is built so far go before
/// it, if the chain can be read to the root and they fit.
proof fn lemma_loop(k: Kernel, walk: PathWalk, record: Seq<u8>)
    requires
        walk.wf(),
        walk.base + walk.size <= record.len(),
        walk.stage is NamePtr,
        walk.dentry != walk.root,
        walk.depth < MAX_DEPTH,
    ensures
        ({
            let (end, left) = k.run_walk(walk, record);
            let area = (walk.base + walk.pos, walk.base + walk.size);
            &&& left.len() == record.len()
            &&& left.take(walk.base as int) == record.take(walk.base as int)
            &&& left.skip(walk.base + walk.size) == record.skip(walk.base + walk.size)
            &&& match k.path_below(
                walk.root,
                walk.dentry,
                (MAX_DEPTH - walk.depth) as nat,
            ) {
                Some(above) if above.len() <= walk.pos => {
                    let len = above.len() + (walk.size - walk.pos);
                    &&& end.stage == WalkStage::Done { len: len as usize }
                    &&& left.subrange(walk.base as int, walk.base + len) == above
                        + record.subrange(area.0, area.1)
                },
                _ => end.stage == WalkStage::Done { len: 0 },
            }
        }),
    decreases MAX_DEPTH - walk.depth,
{
    lemma_turn(k, walk, record);
    let below = (MAX_DEPTH - walk.depth) as nat;
    match (k.name(walk.dentry), k.parent(walk.dentry)) {
        (Some(name), Some(parent)) => {
            let above = k.path_below(walk.root, parent, (below - 1) as nat);
            if name.len() < walk.pos {
                let pos = (walk.pos - name.len() - 1) as usize;
                let built = splice(record, walk.base + pos, seq![SLASH] + name);
                let at_parent = PathWalk { pos, ..walk.at(WalkStage::Parent) };
                let (next, moved) = at_parent.after(Some(parent), built);
                let tail = record.subrange(walk.base + walk.pos, walk.base + walk.size);
                assert(built.len() == record.len());
                assert(built.take(walk.base as int) =~= record.take(walk.base as int));
                assert(built.skip(walk.base + walk.size) =~= record.skip(walk.base + walk.size));
                assert(built.subrange(walk.base + pos, walk.base + walk.size) =~= seq![SLASH]
                    + name + tail);
                if parent == walk.root {
                    assert(above == Some(Seq::<u8>::empty()));
                    let len = walk.size - pos;
                    assert(Seq::<u8>::empty().push(SLASH) + name =~= seq![SLASH] + name);
                    assert(moved.subrange(walk.base as int, walk.base + len) =~= seq![SLASH] + name
                        + tail);
                    assert(moved.take(walk.base as int) =~= record.take(walk.base as int));
                    assert(moved.skip(walk.base + walk.size) =~= record.skip(
                        walk.base + walk.size,
                    ));
                    reveal_with_fuel(Kernel::run_walk, 1);
                } else if walk.depth + 1 >= MAX_DEPTH {
                    reveal_with_fuel(Kernel::run_walk, 1);
                    assert(above is None);
                } else {
                    lemma_loop(k, next, built);
                    if let Some(above) = above {
                        assert(above + (seq![SLASH] + name + tail) =~= above.push(SLASH) + name
                            + tail);
                    }
                }
            }
        },
        _ => {},
    }
}

/// A walk resolves its dentry exactly: it ends with the complete path and a
/// NUL at the start of its area, and with their length, or with 0 if the path
/// cannot be read, is too deep or does not fit. Outside its area it touches
/// nothing.
pub proof fn law_walk_resolves(
    k: Kernel,
    dentry: u64,
    base: usize,
    size: usize,
    record: Seq<u8>,
)
    requires
        base + size <= record.len() <= usize::MAX,
    ensures
        ({
            let (end, left) = k.run_walk(PathWalk::start(dentry, base, size), record);
            &&& left.len() == record.len()
            &&& left.take(base as int) == record.take(base as int)
            &&& left.skip(base + size) == record.skip(base + size)
            &&& match k.resolve(dentry, size as nat) {
                Some(path) => {
                    &&& end.stage == WalkStage::Done { len: (path.len() + 1) as usize }
                    &&& left.subrange(base as int, base + path.len() + 1) == path.push(0u8)
                },
                None => end.stage == WalkStage::Done { len: 0 },
            }
        }),
{
    reveal_with_fuel(Kernel::run_walk, 4);
    let start = PathWalk::start(dentry, base, size);
    if size >= 2 {
        if let Some(sb) = k.ptr(dentry, DENTRY_D_SB_OFF) {
            if let Some(root) = k.ptr(sb, SUPER_BLOCK_S_ROOT_OFF) {
                let (walk, opened) = start.at(WalkStage::Root { sb }).after(Some(root), record);
                assert(opened.take(base as int) =~= record.take(base as int));
                assert(opened.skip(base + size) =~= record.skip(base + size));
                if root == dentry {
                    assert(opened.subrange(base as int, base + 2) =~= seq![SLASH].push(0u8));
                } else {
                    lemma_loop(k, walk, opened);
                    assert(opened.subrange(base + size - 1, base + size) =~= seq![0u8]);
                    if let Some(path) = k.path_below(root, dentry, MAX_DEPTH as nat) {
                        assert(path + seq![0u8] =~= path.push(0u8));
                    }
                }
            }
        }
    }
}

/// A path takes at least two bytes for each level that it goes down.
proof fn lemma_path_has_two_bytes_a_level(k: Kernel, root: u64, dentry: u64, depth: nat)
    ensures
        k.path_below(root, dentry, depth) matches Some(path) ==> forall|less: nat|
            path.len() <= 2 * less ==> #[trigger] k.path_below(root, dentry, less) == Some(path),
    decreases depth,
{
    if let Some(path) = k.path_below(root, dentry, depth) {
        assert forall|less: nat| path.len() <= 2 * less implies #[trigger] k.path_below(
            root,
            dentry,
            less,
        ) == Some(path) by {
            if dentry != root {
                let parent = k.parent(dentry)->0;
                let name = k.name(dentry)->0;
                let above = k.path_below(root, parent, (depth - 1) as nat)->0;
                lemma_path_has_two_bytes_a_level(k, root, parent, (depth - 1) as nat);
                assert(path == above.push(SLASH) + name);
                assert(above.len() <= 2 * (less - 1));
                assert(k.path_below(root, parent, (less - 1) as nat) == Some(above));
            }
        }
    }
}

/// The bound on the depth costs nothing: a path that fits in a record's area,
/// however deep the chain may be, is resolved.
pub proof fn law_depth_is_enough(k: Kernel, dentry: u64, depth: nat)
    requires
        k.root(dentry) is Some,
        dentry != k.root(dentry)->0,
        k.path_below(k.root(dentry)->0, dentry, depth) is Some,
        k.path_below(k.root(dentry)->0, dentry, depth)->0.len() < PATH_BUF_SIZE,
    ensures
        k.resolve(dentry, PATH_BUF_SIZE as nat) == k.path_below(
            k.root(dentry)->0,
            dentry,
            depth,
        ),
{
    lemma_path_has_two_bytes_a_level(k, k.root(dentry)->0, dentry, depth);
    assert(k.path_below(k.root(dentry)->0, dentry, MAX_DEPTH as nat) == k.path_below(
        k.root(dentry)->0,
        dentry,
        depth,
    ));
}

/// A resolved path is absolute, and short enough.
pub proof fn law_resolved_path_is_absolute(k: Kernel, dentry: u64, size: nat)
    ensures
        k.resolve(dentry, size) matches Some(path) ==> 0 < path.len() < size && path[0] == SLASH,
{
    if let Some(root) = k.root(dentry) {
        if dentry != root {
            lemma_path_starts_with_separator(k, root, dentry, MAX_DEPTH as nat);
        }
    }
}

proof fn lemma_path_starts_with_separator(k: Kernel, root: u64, dentry: u64, depth: nat)
    requires
        dentry != root,
    ensures
        k.path_below(root, dentry, depth) matches Some(path) ==> path.len() > 0 && path[0]
            == SLASH,
    decreases depth,
{
    if let Some(path) = k.path_below(root, dentry, depth) {
        let parent = k.parent(dentry)->0;
        if parent != root {
            lemma_path_starts_with_separator(k, root, parent, (depth - 1) as nat);
        }
    }
}

} // verus!

//! What the walks know of one filesystem entry: its path, in display form and as
//! raw bytes, and the fields of its `lstat` record that decide how it is counted.

use vstd::prelude::*;
use crate::text::copy_string;
use vstd::string::StringSliceAdditionalSpecFns;

verus! {

/// A path as raw Unix bytes together with its lossy display text.
pub struct PathText {
    pub display: String,
    pub bytes: Vec<u8>,
}

impl PathText {
    pub fn new(display: String, bytes: Vec<u8>) -> (p: PathText)
        ensures
            p.display@ == display@,
            p.bytes@ == bytes@,
    {
        PathText { display, bytes }
    }

    /// The path spelled by a string slice: its text and its UTF-8 bytes.
    pub fn from_text(s: &str) -> (p: PathText)
        ensures
            p.display@ == s@,
            p.bytes@ == s.spec_bytes(),
    {
        PathText { display: crate::text::owned(s), bytes: copy_bytes(s.as_bytes()) }
    }

    /// A copy of this path.
    pub fn duplicate(&self) -> (p: PathText)
        ensures
            p.display@ == self.display@,
            p.bytes@ == self.bytes@,
    {
        PathText { display: copy_string(&self.display), bytes: copy_bytes(self.bytes.as_slice()) }
    }
}

/// A copy of a byte sequence.
pub fn copy_bytes(b: &[u8]) -> (v: Vec<u8>)
    ensures
        v@ == b@,
{
    let mut v: Vec<u8> = Vec::new();
    let mut i: usize = 0;
    while i < b.len()
        invariant
            i <= b.len(),
            v@ == b@.take(i as int),
        decreases b.len() - i,
    {
        v.push(b[i]);
        i += 1;
        assert(v@ =~= b@.take(i as int));
    }
    assert(b@.take(i as int) =~= b@);
    v
}

/// The `lstat` fields that decide how an entry is classified and counted.
#[derive(Clone, Copy)]
pub struct EntryMeta {
    pub dev: u64,
    pub ino: u64,
    /// `st_mode`, file-type bits included.
    pub mode: u32,
    /// `st_blocks`, in 512-byte units.
    pub blocks: u64,
    /// `st_size`.
    pub len: u64,
}

/// The file-type field of a mode (`(mode & S_IFMT) >> 12`).
pub open spec fn type_code(mode: u32) -> nat {
    ((mode as nat) / 4096) % 16
}

/// The file-type field of a mode.
pub fn mode_type_code(mode: u32) -> (r: u32)
    ensures
        r == type_code(mode),
        r < 16,
{
    (mode / 4096) % 16
}

pub open spec fn is_dir_mode(mode: u32) -> bool {
    type_code(mode) == 4
}

pub open spec fn is_file_mode(mode: u32) -> bool {
    type_code(mode) == 8
}

pub open spec fn is_symlink_mode(mode: u32) -> bool {
    type_code(mode) == 10
}

impl EntryMeta {
    pub open spec fn spec_is_dir(self) -> bool {
        is_dir_mode(self.mode)
    }

    pub open spec fn spec_is_file(self) -> bool {
        is_file_mode(self.mode)
    }

    pub open spec fn spec_is_symlink(self) -> bool {
        is_symlink_mode(self.mode)
    }

    /// The identity `(st_dev, st_ino)` packed into one integer.
    pub open spec fn spec_key(self) -> u128 {
        ((self.dev as int) * 0x1_0000_0000_0000_0000 + (self.ino as int)) as u128
    }

    /// Allocated bytes, `st_blocks * 512`, saturating at `u64::MAX`.
    pub open spec fn spec_allocated(self) -> u64 {
        if self.blocks as nat * 512 > u64::MAX as nat {
            u64::MAX
        } else {
            (self.blocks * 512) as u64
        }
    }

    pub fn is_dir(&self) -> (r: bool)
        ensures
            r == self.spec_is_dir(),
    {
        mode_type_code(self.mode) == 4
    }

    pub fn is_file(&self) -> (r: bool)
        ensures
            r == self.spec_is_file(),
    {
        mode_type_code(self.mode) == 8
    }

    pub fn is_symlink(&self) -> (r: bool)
        ensures
            r == self.spec_is_symlink(),
    {
        mode_type_code(self.mode) == 10
    }

    /// The identity of the entry; two entries share it exactly when they share
    /// device and inode.
    pub fn key(&self) -> (k: u128)
        ensures
            k == self.spec_key(),
    {
        (self.dev as u128) * 0x1_0000_0000_0000_0000 + (self.ino as u128)
    }

    /// `st_blocks * 512`, saturating.
    pub fn allocated_bytes(&self) -> (r: u64)
        ensures
            r == self.spec_allocated(),
    {
        if self.blocks > u64::MAX / 512 {
            u64::MAX
        } else {
            self.blocks * 512
        }
    }
}

/// Distinct devices or inodes give distinct keys.
pub proof fn lemma_key_identifies(a: EntryMeta, b: EntryMeta)
    ensures
        (a.spec_key() == b.spec_key()) == (a.dev == b.dev && a.ino == b.ino),
{
    let x = (a.dev as int) * 0x1_0000_0000_0000_0000 + (a.ino as int);
    let y = (b.dev as int) * 0x1_0000_0000_0000_0000 + (b.ino as int);
    assert(0 <= x < 0x1_0000_0000_0000_0000_0000_0000_0000_0000) by (nonlinear_arith)
        requires
            x == (a.dev as int) * 0x1_0000_0000_0000_0000 + (a.ino as int),
            0 <= a.dev < 0x1_0000_0000_0000_0000,
            0 <= a.ino < 0x1_0000_0000_0000_0000,
    ;
    assert(0 <= y < 0x1_0000_0000_0000_0000_0000_0000_0000_0000) by (nonlinear_arith)
        requires
            y == (b.dev as int) * 0x1_0000_0000_0000_0000 + (b.ino as int),
            0 <= b.dev < 0x1_0000_0000_0000_0000,
            0 <= b.ino < 0x1_0000_0000_0000_0000,
    ;
    assert(x == y ==> (a.dev == b.dev && a.ino == b.ino)) by (nonlinear_arith)
        requires
            x == (a.dev as int) * 0x1_0000_0000_0000_0000 + (a.ino as int),
            y == (b.dev as int) * 0x1_0000_0000_0000_0000 + (b.ino as int),
            0 <= a.ino < 0x1_0000_0000_0000_0000,
            0 <= b.ino < 0x1_0000_0000_0000_0000,
    ;
}

/// `a + b`, capped at `u64::MAX` (std's `u64::saturating_add`).
pub open spec fn sat_add(a: u64, b: u64) -> u64 {
    if a + b > u64::MAX {
        u64::MAX
    } else {
        (a + b) as u64
    }
}

/// `u64::saturating_add`.
pub fn saturating_add(a: u64, b: u64) -> (r: u64)
    ensures
        r == sat_add(a, b),
{
    a.saturating_add(b)
}

/// A nonnegative integer capped at `u64::MAX`.
pub open spec fn cap(n: int) -> u64 {
    if n > u64::MAX {
        u64::MAX
    } else if n < 0 {
        0
    } else {
        n as u64
    }
}

/// Saturating sums of capped partial sums cap the whole sum.
pub proof fn lemma_sat_add_cap(a: int, b: int)
    requires
        a >= 0,
        b >= 0,
    ensures
        sat_add(cap(a), cap(b)) == cap(a + b),
{
}

} // verus!

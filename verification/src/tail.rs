//! Following one log file by byte offset, and the got-shorter rule: a log is truncated at spawn and
//! the previous generation renamed aside, so a follower that only ever moved forward would go
//! silent for the rest of the run.

use vstd::prelude::*;
use vstd::string::*;

verus! {

pub const PLUGIN_ID: &'static str = "herdr-dev";
pub const ENTRYPOINT: &'static str = "tail";
pub const LOG_ENV: &'static str = "HERDR_DEV_LOG";
pub const RESTARTED: &'static str = "── log restarted ──";

/// What one read of the log turned up.
#[derive(Debug, Default, PartialEq, Eq)]
pub struct Fresh {
    pub bytes: Vec<u8>,
    /// The file got shorter or was replaced, so `bytes` starts a new generation.
    pub restarted: bool,
}

/// Which file was read, and how far.
#[derive(Debug, Clone, Copy, PartialEq, Eq, Structural)]
pub struct Seen {
    pub device: u64,
    pub inode: u64,
    pub offset: u64,
}

pub struct Follower {
    path: String,
    seen: Option<Seen>,
    first_read_tail: u64,
}

/// Where a read starts, and whether it starts a new generation, for a file now on `device` and
/// `inode` and `length` bytes long. Rotation is rename-then-create, so a fresh log is a different
/// inode and may already have outgrown the old offset: length alone would miss it.
pub open spec fn start_spec(seen: Option<Seen>, first_read_tail: u64, device: u64, inode: u64, length: u64) -> (u64, bool) {
    match seen {
        Some(s) => if s.inode == inode && s.device == device && s.offset <= length {
            (s.offset, false)
        } else {
            (0, true)
        },
        None => (if length >= first_read_tail {
            (length - first_read_tail) as u64
        } else {
            0
        }, false),
    }
}

/// The bytes a first read that started mid-file keeps: the line it landed in the middle of is
/// dropped rather than shown half.
pub open spec fn trimmed(bytes: Seq<u8>, first: bool, offset: u64) -> Seq<u8> {
    if first && offset > 0 && bytes.len() > 0 {
        match first_newline(bytes, 0) {
            Some(i) => bytes.skip(i + 1),
            None => Seq::empty(),
        }
    } else {
        bytes
    }
}

pub open spec fn first_newline(bytes: Seq<u8>, i: nat) -> Option<int>
    decreases bytes.len() - i,
{
    if i >= bytes.len() {
        None
    } else if bytes[i as int] == 10 {
        Some(i as int)
    } else {
        first_newline(bytes, i + 1)
    }
}

/// A follower picks up where it left off in the file it read, and starts a fresh file, or one that
/// got shorter, from its first byte, saying so.
pub proof fn law_a_follower_reads_each_byte_once(device: u64, inode: u64, offset: u64, tail: u64, d2: u64, i2: u64, length: u64)
    ensures
        (d2 == device && i2 == inode && offset <= length) ==> start_spec(Some(Seen { device, inode, offset }), tail, d2, i2, length) == (offset, false),
        !(d2 == device && i2 == inode && offset <= length) ==> start_spec(Some(Seen { device, inode, offset }), tail, d2, i2, length) == (0u64, true),
{
}

/// What the pane writes for one read: a restart announced on a line of its own, because output
/// silently jumping back to the top of a fresh log reads as corruption, then the bytes.
pub open spec fn written_spec(bytes: Seq<u8>, restarted: bool) -> Seq<u8> {
    if restarted {
        RESTARTED.spec_bytes() + seq![10u8] + bytes
    } else {
        bytes
    }
}

pub fn written(fresh: &Fresh) -> (r: Vec<u8>)
    ensures
        r@ == written_spec(fresh.bytes@, fresh.restarted),
{
    let mut r: Vec<u8> = Vec::new();
    if fresh.restarted {
        let banner = RESTARTED.as_bytes();
        let mut i: usize = 0;
        while i < banner.len()
            invariant
                i <= banner@.len(),
                banner@ == RESTARTED.spec_bytes(),
                r@ == banner@.subrange(0, i as int),
            decreases banner.len() - i,
        {
            r.push(banner[i]);
            assert(r@ =~= banner@.subrange(0, i as int + 1));
            i += 1;
        }
        assert(banner@.subrange(0, banner@.len() as int) =~= banner@);
        r.push(10u8);
    }
    let ghost lead = r@;
    let mut j: usize = 0;
    while j < fresh.bytes.len()
        invariant
            j <= fresh.bytes@.len(),
            r@ == lead + fresh.bytes@.subrange(0, j as int),
        decreases fresh.bytes.len() - j,
    {
        r.push(fresh.bytes[j]);
        assert(r@ =~= lead + fresh.bytes@.subrange(0, j as int + 1));
        j += 1;
    }
    assert(fresh.bytes@.subrange(0, fresh.bytes@.len() as int) =~= fresh.bytes@);
    r
}

impl Follower {
    pub closed spec fn path_spec(&self) -> Seq<char> {
        self.path@
    }

    pub closed spec fn seen_spec(&self) -> Option<Seen> {
        self.seen
    }

    pub closed spec fn tail_spec(&self) -> u64 {
        self.first_read_tail
    }

    /// A follower that reads a log from its start.
    pub fn watching(path: String) -> (r: Follower)
        ensures
            r.path_spec() == path@,
            r.seen_spec() is None,
            r.tail_spec() == u64::MAX,
    {
        Follower { path, seen: None, first_read_tail: u64::MAX }
    }

    /// A follower that starts roughly `bytes` from the end of a log that already exists.
    pub fn watching_tail(path: String, bytes: u64) -> (r: Follower)
        ensures
            r.path_spec() == path@,
            r.seen_spec() is None,
            r.tail_spec() == bytes,
    {
        Follower { path, seen: None, first_read_tail: bytes }
    }

    pub fn path(&self) -> (r: &str)
        ensures
            r@ == self.path_spec(),
    {
        self.path.as_str()
    }

    /// The log is not there: whatever was read before belonged to a file that is gone.
    pub fn missing(&mut self)
        ensures
            final(self).seen_spec() is None,
            final(self).path_spec() == old(self).path_spec(),
            final(self).tail_spec() == old(self).tail_spec(),
    {
        self.seen = None;
    }

    /// Where the next read of a file now on `device` and `inode`, `length` bytes long, starts.
    pub fn start(&self, device: u64, inode: u64, length: u64) -> (r: (u64, bool))
        ensures
            r == start_spec(self.seen_spec(), self.tail_spec(), device, inode, length),
    {
        match self.seen {
            Some(s) => if s.inode == inode && s.device == device && s.offset <= length {
                (s.offset, false)
            } else {
                (0, true)
            },
            None => (if length >= self.first_read_tail {
                length - self.first_read_tail
            } else {
                0
            }, false),
        }
    }

    /// What a read from `offset` of `bytes` gives, and where the next one starts.
    pub fn took(&mut self, device: u64, inode: u64, offset: u64, restarted: bool, bytes: Vec<u8>) -> (r: Fresh)
        requires
            offset + bytes@.len() <= u64::MAX,
        ensures
            final(self).seen_spec() == Some(Seen { device, inode, offset: (offset + bytes@.len()) as u64 }),
            final(self).path_spec() == old(self).path_spec(),
            final(self).tail_spec() == old(self).tail_spec(),
            r.restarted == restarted,
            r.bytes@ == trimmed(bytes@, old(self).seen_spec() is None, offset),
    {
        let first = self.seen.is_none();
        self.seen = Some(Seen { device, inode, offset: offset + bytes.len() as u64 });
        if first && offset > 0 && bytes.len() > 0 {
            let mut i: usize = 0;
            while i < bytes.len() && bytes[i] != 10
                invariant
                    i <= bytes@.len(),
                    first_newline(bytes@, 0) == first_newline(bytes@, i as nat),
                decreases bytes.len() - i,
            {
                i += 1;
            }
            let kept: Vec<u8> = if i < bytes.len() {
                let mut k: Vec<u8> = Vec::new();
                let mut j = i + 1;
                while j < bytes.len()
                    invariant
                        i + 1 <= j <= bytes@.len(),
                        k@ == bytes@.subrange(i + 1, j as int),
                    decreases bytes.len() - j,
                {
                    k.push(bytes[j]);
                    j += 1;
                }
                assert(k@ =~= bytes@.skip(i + 1));
                k
            } else {
                Vec::new()
            };
            return Fresh { bytes: kept, restarted };
        }
        Fresh { bytes, restarted }
    }
}

} // verus!

//! The size-bounded operational log of the installed service.

use crate::number;
use crate::text;
use vstd::prelude::*;

verus! {

/// A log that is kept within a size by rotating it through backups. The log
/// itself is slot 0; its backups, newest first, are slots 1 and on.
#[derive(Debug)]
pub struct RotatingLog {
    pub path: String,
    pub max_bytes: u64,
    pub backups: u32,
}

/// What to do to a file before the next line is written.
#[derive(Debug, Clone, Copy, PartialEq, Eq, Structural)]
pub enum FileOp {
    Remove { slot: u32 },
    /// The file moves to the next slot.
    Shift { slot: u32 },
}

/// What the slots hold after an operation.
pub open spec fn done<T>(files: Seq<Option<T>>, op: FileOp) -> Seq<Option<T>> {
    match op {
        FileOp::Remove { slot } => files.update(slot as int, None),
        FileOp::Shift { slot } => files.update(slot + 1, files[slot as int]).update(
            slot as int,
            None,
        ),
    }
}

/// What the slots hold after some operations.
pub open spec fn all_done<T>(files: Seq<Option<T>>, ops: Seq<FileOp>) -> Seq<Option<T>>
    decreases ops.len(),
{
    if ops.len() == 0 {
        files
    } else {
        done(all_done(files, ops.drop_last()), ops.last())
    }
}

/// Every file one slot further, without the last.
pub open spec fn rotated<T>(files: Seq<Option<T>>) -> Seq<Option<T>> {
    seq![None] + files.drop_last()
}

/// `present` says which slots hold a file.
pub open spec fn shows<T>(present: Seq<bool>, files: Seq<Option<T>>) -> bool {
    &&& present.len() == files.len()
    &&& forall|i: int| 0 <= i < files.len() ==> #[trigger] present[i] == (files[i] is Some)
}

/// What a file holds; nothing if it is not there.
pub open spec fn bytes_of(file: Option<Seq<u8>>) -> Seq<u8> {
    match file {
        Some(b) => b,
        None => Seq::empty(),
    }
}

/// A line and its end.
pub open spec fn ended(line: Seq<u8>) -> Seq<u8> {
    line.push(10)
}

/// Lines, each with its end, one after the other.
pub open spec fn joined_lines(lines: Seq<Seq<u8>>) -> Seq<u8>
    decreases lines.len(),
{
    if lines.len() == 0 {
        Seq::empty()
    } else {
        joined_lines(lines.drop_last()) + ended(lines.last())
    }
}

/// What the slots hold, from the oldest backup to the log itself.
pub open spec fn kept_bytes(files: Seq<Option<Seq<u8>>>) -> Seq<u8>
    decreases files.len(),
{
    if files.len() == 0 {
        Seq::empty()
    } else {
        kept_bytes(files.drop_first()) + bytes_of(files[0])
    }
}

impl RotatingLog {
    pub fn new(path: String, max_bytes: u64, backups: u32) -> (r: Self)
        ensures
            r == (RotatingLog { path, max_bytes, backups }),
    {
        RotatingLog { path, max_bytes, backups }
    }

    /// Where a backup is kept.
    pub fn backup_path(&self, index: u32) -> (r: String)
        ensures
            r@ == self.path@ + "."@ + number::dec(index as nat),
    {
        let n = number::number_text(index as u64);
        text::chain(self.path.as_str(), ".", n.as_str())
    }

    /// Where the file of a slot is kept.
    pub open spec fn spec_slot_path(self, slot: u32) -> Seq<char> {
        if slot == 0 {
            self.path@
        } else {
            self.path@ + "."@ + number::dec(slot as nat)
        }
    }

    pub fn slot_path(&self, slot: u32) -> (r: String)
        ensures
            r@ == self.spec_slot_path(slot),
    {
        if slot == 0 {
            self.path.clone()
        } else {
            self.backup_path(slot)
        }
    }

    /// The operations that rotate the log. Whatever the files hold, they move
    /// each file one slot further and drop what was in the last slot.
    pub fn rotate(&self, present: &Vec<bool>) -> (r: Vec<FileOp>)
        requires
            present@.len() == self.backups + 1,
        ensures
            forall|files: Seq<Option<Seq<u8>>>| #[trigger]
                shows(present@, files) ==> all_done(files, r@) == rotated(files),
            forall|i: int|
                0 <= i < r@.len() ==> match #[trigger] r@[i] {
                    FileOp::Remove { slot } => slot == self.backups,
                    FileOp::Shift { slot } => slot < self.backups,
                },
    {
        let n = self.backups;
        let mut ops: Vec<FileOp> = Vec::new();
        if present[n as usize] {
            ops.push(FileOp::Remove { slot: n });
        }
        assert forall|files: Seq<Option<Seq<u8>>>| #[trigger]
            shows(present@, files) implies all_done(files, ops@) == partly(files, n as int) by {
            let last = files.len() - 1;
            assert(present@[last] == (files[last] is Some));
            if present@[last] {
                assert(ops@.drop_last() =~= Seq::<FileOp>::empty());
                assert(all_done(files, ops@.drop_last()) == files);
                assert(ops@.last() == FileOp::Remove { slot: n });
            }
            assert(all_done(files, ops@) =~= partly(files, n as int));
        }
        let mut k = n;
        while k > 0
            invariant
                n == self.backups,
                present@.len() == n + 1,
                k <= n,
                forall|files: Seq<Option<Seq<u8>>>| #[trigger]
                    shows(present@, files) ==> all_done(files, ops@) == partly(files, k as int),
                forall|i: int|
                    0 <= i < ops@.len() ==> match #[trigger] ops@[i] {
                        FileOp::Remove { slot } => slot == self.backups,
                        FileOp::Shift { slot } => slot < self.backups,
                    },
            decreases k,
        {
            let ghost before = ops@;
            if present[(k - 1) as usize] {
                ops.push(FileOp::Shift { slot: (k - 1) as u32 });
                assert(ops@.drop_last() =~= before);
            }
            assert forall|files: Seq<Option<Seq<u8>>>| #[trigger]
                shows(present@, files) implies all_done(files, ops@) == partly(
                files,
                k - 1,
            ) by {
                assert(present@[k - 1] == (files[k - 1] is Some));
                assert(all_done(files, before) == partly(files, k as int));
                assert(all_done(files, ops@) =~= partly(files, k - 1));
            }
            k = k - 1;
        }
        assert forall|files: Seq<Option<Seq<u8>>>| #[trigger]
            shows(present@, files) implies all_done(files, ops@) == rotated(files) by {
            assert(partly(files, 0) =~= rotated(files));
        }
        ops
    }

    /// A line of `line_bytes` bytes and its end do not fit behind `current` bytes.
    pub open spec fn is_full(self, current: nat, line_bytes: nat) -> bool {
        let total = current + line_bytes + 1;
        self.max_bytes == 0 || (if total > u64::MAX {
            u64::MAX as nat
        } else {
            total
        }) > self.max_bytes
    }

    /// What the slots hold once there is room for a line: they are rotated if
    /// the line does not fit.
    pub open spec fn made_room(self, files: Seq<Option<Seq<u8>>>, line_bytes: nat) -> Seq<
        Option<Seq<u8>>,
    > {
        if self.is_full(bytes_of(files[0]).len(), line_bytes) {
            rotated(files)
        } else {
            files
        }
    }

    /// The operations make room for a line, whatever the files hold.
    pub open spec fn makes_room(
        self,
        current: nat,
        line_bytes: nat,
        present: Seq<bool>,
        ops: Seq<FileOp>,
    ) -> bool {
        forall|files: Seq<Option<Seq<u8>>>| #[trigger]
            shows(present, files) && bytes_of(files[0]).len() == current ==> all_done(files, ops)
                == self.made_room(files, line_bytes)
    }

    /// What the slots hold after a line is written.
    pub open spec fn written(self, files: Seq<Option<Seq<u8>>>, line: Seq<u8>) -> Seq<
        Option<Seq<u8>>,
    > {
        let room = self.made_room(files, line.len());
        room.update(0, Some(bytes_of(room[0]) + ended(line)))
    }

    /// What the slots hold after lines are written, where there was nothing at first.
    pub open spec fn all_written(self, lines: Seq<Seq<u8>>) -> Seq<Option<Seq<u8>>>
        decreases lines.len(),
    {
        if lines.len() == 0 {
            Seq::new((self.backups + 1) as nat, |i: int| None)
        } else {
            self.written(self.all_written(lines.drop_last()), lines.last())
        }
    }

    /// What to do to the files before a line of `line_bytes` bytes is appended
    /// to a log of `current` bytes: rotate if the line does not fit.
    pub fn write_line(&self, current: u64, line_bytes: u64, present: &Vec<bool>) -> (r: Vec<FileOp>)
        requires
            present@.len() == self.backups + 1,
            line_bytes < u64::MAX,
        ensures
            self.makes_room(current as nat, line_bytes as nat, present@, r@),
            !self.is_full(current as nat, line_bytes as nat) ==> r@.len() == 0,
    {
        let incoming = line_bytes + 1;
        let total = if current > u64::MAX - incoming {
            u64::MAX
        } else {
            current + incoming
        };
        if self.max_bytes == 0 || total > self.max_bytes {
            self.rotate(present)
        } else {
            Vec::new()
        }
    }
}

/// The slots from `k` on have been vacated in favour of the next.
spec fn partly<T>(files: Seq<Option<T>>, k: int) -> Seq<Option<T>> {
    Seq::new(
        files.len(),
        |i: int|
            if i < k {
                files[i]
            } else if i == k {
                None
            } else {
                files[i - 1]
            },
    )
}

/// A rotation keeps the log and every backup but the oldest, one slot further,
/// and leaves room for a new log; there are never more backups than before.
pub proof fn law_rotation_is_bounded<T>(files: Seq<Option<T>>)
    requires
        files.len() > 0,
    ensures
        rotated(files).len() == files.len(),
        rotated(files)[0] is None,
        forall|i: int| 0 < i < files.len() ==> #[trigger] rotated(files)[i] == files[i - 1],
{
}

proof fn lemma_kept_from_oldest(files: Seq<Option<Seq<u8>>>)
    requires
        files.len() > 0,
    ensures
        kept_bytes(files) == bytes_of(files.last()) + kept_bytes(files.drop_last()),
    decreases files.len(),
{
    if files.len() == 1 {
        assert(files.drop_first() =~= Seq::empty());
        assert(files.drop_last() =~= Seq::empty());
    } else {
        let rest = files.drop_first();
        lemma_kept_from_oldest(rest);
        assert(rest.drop_last() =~= files.drop_last().drop_first());
        assert(kept_bytes(files) =~= bytes_of(files.last()) + (kept_bytes(rest.drop_last())
            + bytes_of(files[0])));
    }
}

/// Making room loses nothing but the oldest backup.
proof fn lemma_room_keeps_a_suffix(log: RotatingLog, files: Seq<Option<Seq<u8>>>, line_bytes: nat)
    requires
        files.len() > 0,
    ensures
        kept_bytes(log.made_room(files, line_bytes)).is_suffix_of(kept_bytes(files)),
{
    let all = kept_bytes(files);
    assert(all.subrange(0, all.len() as int) =~= all);
    let front = files.drop_last();
    lemma_kept_from_oldest(files);
    assert(rotated(files).drop_first() =~= front);
    assert(kept_bytes(rotated(files)) =~= kept_bytes(front));
    assert(all.subrange(bytes_of(files.last()).len() as int, all.len() as int) =~= kept_bytes(
        front,
    ));
}

/// The log stays bounded whatever is written, and keeps what came last: after
/// any lines it ends with the last of them and holds no more than its limit, or
/// than that one line where the line alone is longer; there is no backup beyond
/// the configured ones; and the backups, from the oldest on, and the log
/// together are the end of all that was written.
pub proof fn law_logs_stay_bounded_and_keep_the_latest(log: RotatingLog, lines: Seq<Seq<u8>>)
    requires
        log.max_bytes < u64::MAX || joined_lines(lines).len() <= u64::MAX,
    ensures
        log.all_written(lines).len() == log.backups + 1,
        lines.len() > 0 ==> {
            let active = bytes_of(log.all_written(lines)[0]);
            &&& ended(lines.last()).is_suffix_of(active)
            &&& active.len() <= log.max_bytes || active.len() == lines.last().len() + 1
        },
        kept_bytes(log.all_written(lines)).is_suffix_of(joined_lines(lines)),
    decreases lines.len(),
{
    let files = log.all_written(lines);
    if lines.len() == 0 {
        lemma_nothing_kept(files);
    } else {
        let line = lines.last();
        let prior = lines.drop_last();
        let before = log.all_written(prior);
        law_logs_stay_bounded_and_keep_the_latest(log, prior);
        let room = log.made_room(before, line.len());
        lemma_room_keeps_a_suffix(log, before, line.len());
        assert(room.len() == before.len());
        assert(files.drop_first() =~= room.drop_first());
        let kept = kept_bytes(room);
        let active = bytes_of(files[0]);
        assert(active == bytes_of(room[0]) + ended(line));
        assert(kept_bytes(files) =~= kept + ended(line));
        let all = joined_lines(prior);
        let was = kept_bytes(before);
        assert(was.len() <= all.len());
        assert(kept =~= all.subrange(all.len() - kept.len(), all.len() as int)) by {
            assert(was == all.subrange(all.len() - was.len(), all.len() as int));
            assert(kept == was.subrange(was.len() - kept.len(), was.len() as int));
        }
        let total = all + ended(line);
        assert(joined_lines(lines) == total);
        assert(total.subrange(
            total.len() - (kept + ended(line)).len(),
            total.len() as int,
        ) =~= kept + ended(line));
        assert(active.subrange(active.len() - ended(line).len(), active.len() as int) =~= ended(
            line,
        ));
        assert(kept.len() >= bytes_of(room[0]).len());
    }
}

proof fn lemma_nothing_kept(files: Seq<Option<Seq<u8>>>)
    requires
        forall|i: int| 0 <= i < files.len() ==> #[trigger] files[i] is None,
    ensures
        kept_bytes(files).len() == 0,
    decreases files.len(),
{
    if files.len() > 0 {
        assert(files[0] is None);
        assert forall|i: int| 0 <= i < files.drop_first().len() implies #[trigger]
            files.drop_first()[i] is None by {
            assert(files[i + 1] is None);
        }
        lemma_nothing_kept(files.drop_first());
    }
}

/// The log that the environment asks for, if it does: settings that are
/// missing or no numbers have their documented values.
pub fn from_environment(
    path: Option<&str>,
    max_bytes: Option<&str>,
    backups: Option<&str>,
) -> (r: Option<RotatingLog>)
    ensures
        match (r, path) {
            (Some(log), Some(p)) => {
                &&& log.path@ == p@
                &&& log.max_bytes == setting(text::opt_str(max_bytes), u64::MAX as nat, 10_485_760)
                &&& log.backups == setting(text::opt_str(backups), u32::MAX as nat, 3)
            },
            (None, None) => true,
            _ => false,
        },
{
    let path = match path {
        Some(path) => path,
        None => return None,
    };
    let max = match max_bytes {
        Some(value) => match number::parse_u64(&text::chars(value)) {
            Some(n) => n,
            None => 10_485_760,
        },
        None => 10_485_760,
    };
    let kept = match backups {
        Some(value) => match number::parse_u32(&text::chars(value)) {
            Some(n) => n,
            None => 3,
        },
        None => 3,
    };
    Some(RotatingLog::new(path.to_string(), max, kept))
}

/// A number that may be given, else its documented value.
pub open spec fn setting(given: Option<Seq<char>>, max: nat, documented: nat) -> nat {
    match given {
        Some(s) => match number::unsigned(s, max) {
            Some(n) => n,
            None => documented,
        },
        None => documented,
    }
}

} // verus!

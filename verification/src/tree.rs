//! What lies below a directory, as it was found on disk.

use vstd::prelude::*;

verus! {

/// What stands in a directory.
#[derive(Debug)]
pub enum Entry {
    /// A file of so many bytes.
    File(u64),
    Dir(Vec<Entry>),
}

/// The bytes of all the files in and below a directory.
pub open spec fn bytes(entries: Seq<Entry>) -> nat
    decreases entries,
{
    if entries.len() == 0 {
        0
    } else {
        bytes(entries.drop_last()) + match entries.last() {
            Entry::File(n) => n as nat,
            Entry::Dir(below) => bytes(below@),
        }
    }
}

/// The directories directly in a directory.
pub open spec fn is_dir() -> spec_fn(Entry) -> bool {
    |e: Entry| e is Dir
}

/// Directories hold at least as many bytes as their first entries.
proof fn lemma_bytes_grow(entries: Seq<Entry>, n: int)
    requires
        0 <= n <= entries.len(),
    ensures
        bytes(entries.take(n)) <= bytes(entries),
    decreases entries.len() - n,
{
    if n < entries.len() {
        lemma_bytes_grow(entries, n + 1);
        assert(entries.take(n + 1).drop_last() =~= entries.take(n));
    } else {
        assert(entries.take(n) =~= entries);
    }
}

/// The bytes of all the files in and below a directory, if they can be counted.
pub fn measure(entries: &Vec<Entry>) -> (r: Option<u64>)
    ensures
        match r {
            Some(n) => n == bytes(entries@),
            None => bytes(entries@) > u64::MAX,
        },
    decreases entries,
{
    let mut total: u64 = 0;
    for i in 0..entries.len()
        invariant
            total == bytes(entries@.take(i as int)),
    {
        proof {
            assert(entries@.take(i + 1).drop_last() =~= entries@.take(i as int));
            assert(entries@.take(i + 1).last() == entries@[i as int]);
            lemma_bytes_grow(entries@, i + 1);
        }
        let n = match &entries[i] {
            Entry::File(n) => *n,
            Entry::Dir(below) => match measure(below) {
                Some(n) => n,
                None => return None,
            },
        };
        match total.checked_add(n) {
            Some(sum) => total = sum,
            None => return None,
        }
    }
    assert(entries@.take(entries@.len() as int) =~= entries@);
    Some(total)
}

} // verus!

//! Memory and storage, out of the texts that the system gives.

use crate::models::StorageStats;
use crate::number::{decimal, law_decimal_reads_back, parse_number, parse_u64};
use crate::split::{lines, split_lines, split_words, texts, words};
use crate::text::{chars_of, law_begins_and_ends, starts_with, trim, trimmed};
use vstd::prelude::*;
use vstd::slice::slice_subrange;

verus! {

broadcast use vstd::string::group_string_axioms;

// ---------------------------------------------------------------------------
// Storage
// ---------------------------------------------------------------------------

/// The size and the use of a file system out of a table: under a heading, two numbers, of
/// which the second counts no more than the first.
pub open spec fn storage_in(text: Seq<char>) -> Option<(nat, nat)> {
    let values = words(lines(text)[1]);
    if lines(text).len() < 2 || values.len() < 2 {
        None
    } else {
        match (parse_number(values[0], u64::MAX as nat), parse_number(values[1], u64::MAX as nat)) {
            (Some(total), Some(used)) => Some(
                (
                    if used < total {
                        used
                    } else {
                        total
                    },
                    total,
                ),
            ),
            _ => None,
        }
    }
}

/// The size and the use of a file system out of the table that `df` writes.
pub fn parse_storage(text: &str) -> (r: Option<StorageStats>)
    ensures
        match r {
            Some(s) => storage_in(text@) == Some((s.used_bytes as nat, s.total_bytes as nat)),
            None => storage_in(text@) is None,
        },
        r matches Some(s) ==> s.used_bytes <= s.total_bytes,
{
    let chars = chars_of(text);
    let list = split_lines(chars.as_slice());
    let ghost all = texts(list@);
    if list.len() < 2 {
        return None;
    }
    assert(all[1] == list@[1]@);
    let values = split_words(list[1]);
    let ghost found = texts(values@);
    if values.len() < 2 {
        return None;
    }
    assert(found[0] == values@[0]@ && found[1] == values@[1]@);
    match (parse_u64(values[0]), parse_u64(values[1])) {
        (Some(total_bytes), Some(used)) => {
            let used_bytes: u64 = if used < total_bytes {
                used
            } else {
                total_bytes
            };
            Some(StorageStats { used_bytes, total_bytes })
        },
        _ => None,
    }
}

// ---------------------------------------------------------------------------
// Memory of a process
// ---------------------------------------------------------------------------

/// The number after the first `Pss:` that starts a line.
pub open spec fn pss_in(list: Seq<Seq<char>>) -> Option<nat>
    decreases list.len(),
{
    if list.len() == 0 {
        None
    } else if starts_with(list[0], "Pss:"@) {
        let rest = words(list[0].skip("Pss:"@.len() as int));
        if rest.len() > 0 {
            parse_number(rest[0], u64::MAX as nat)
        } else {
            None
        }
    } else {
        pss_in(list.drop_first())
    }
}

/// What memory a process takes for its part, in units of 1024 bytes, out of the summary that
/// the system gives.
pub fn parse_pss_kib(text: &str) -> (r: Option<u64>)
    ensures
        match r {
            Some(kib) => pss_in(lines(text@)) == Some(kib as nat),
            None => pss_in(lines(text@)) is None,
        },
{
    let chars = chars_of(text);
    let list = split_lines(chars.as_slice());
    let ghost all = texts(list@);
    let prefix = chars_of("Pss:");
    let mut i: usize = 0;
    assert(all.skip(0) =~= all);
    while i < list.len()
        invariant
            i <= list@.len(),
            all == texts(list@),
            all == lines(text@),
            prefix@ == "Pss:"@,
            pss_in(all) == pss_in(all.skip(i as int)),
        decreases list@.len() - i,
    {
        assert(all.skip(i as int)[0] == list@[i as int]@);
        if crate::text::begins_with(list[i], prefix.as_slice()) {
            let line = list[i];
            let rest = slice_subrange(line, prefix.len(), line.len());
            assert(rest@ =~= line@.skip("Pss:"@.len() as int));
            let values = split_words(rest);
            if values.len() == 0 {
                assert(texts(values@).len() == 0);
                return None;
            }
            assert(texts(values@)[0] == values@[0]@);
            return parse_u64(values[0]);
        }
        assert(all.skip(i as int).drop_first() =~= all.skip(i + 1));
        i = i + 1;
    }
    None
}

/// The memory of a process in MiB: its part of what it shares where that is known, else all
/// that it holds.
pub open spec fn mib_of_process(pss_kib: Option<u64>, memory_bytes: u64) -> int {
    match pss_kib {
        Some(kib) => kib as int / 1024,
        None => memory_bytes as int / 1_048_576,
    }
}

/// The memory of a process in MiB: its part of what it shares where that is known, else all
/// that it holds.
pub fn process_mem_mib(pss_kib: Option<u64>, memory_bytes: u64) -> (r: u64)
    ensures
        r == mib_of_process(pss_kib, memory_bytes),
        r == (match pss_kib {
            Some(kib) => kib / 1024,
            None => memory_bytes / 1_048_576,
        }),
{
    match pss_kib {
        Some(kib) => kib / 1024,
        None => memory_bytes / 1_048_576,
    }
}

/// The number that a text holds, but for white space.
pub fn number_in(text: &str) -> (r: Option<u64>)
    ensures
        match r {
            Some(n) => parse_number(trim(text@), u64::MAX as nat) == Some(n as nat),
            None => parse_number(trim(text@), u64::MAX as nat) is None,
        },
{
    let chars = chars_of(text);
    parse_u64(trimmed(chars.as_slice()))
}

// ---------------------------------------------------------------------------
// Laws
// ---------------------------------------------------------------------------

/// A table whose second line begins with two numbers gives the first as the size and the second
/// as the use, which is no more than the size, whatever stands around them.
pub proof fn law_storage_of_table(text: Seq<char>, total: nat, used: nat)
    requires
        lines(text).len() >= 2,
        words(lines(text)[1]).len() >= 2,
        words(lines(text)[1])[0] == decimal(total),
        words(lines(text)[1])[1] == decimal(used),
        total <= u64::MAX,
        used <= u64::MAX,
    ensures
        used <= total ==> storage_in(text) == Some((used, total)),
        used > total ==> storage_in(text) == Some((total, total)),
{
    law_decimal_reads_back(total, u64::MAX as nat);
    law_decimal_reads_back(used, u64::MAX as nat);
}

/// A table without a second line, with fewer than two words on it, or with something else than
/// numbers there gives nothing.
pub proof fn law_no_storage(text: Seq<char>)
    ensures
        lines(text).len() < 2 ==> storage_in(text) is None,
        lines(text).len() >= 2 && words(lines(text)[1]).len() < 2 ==> storage_in(text) is None,
        lines(text).len() >= 2 && words(lines(text)[1]).len() >= 2 && (parse_number(
            words(lines(text)[1])[0],
            u64::MAX as nat,
        ) is None || parse_number(words(lines(text)[1])[1], u64::MAX as nat) is None) ==> storage_in(text) is None,
{
}

/// The part of a process is the number behind the first mark that begins a line, whatever the
/// lines around it hold; without the mark there is none.
pub proof fn law_first_mark_counts(list: Seq<Seq<char>>, i: int, rest: Seq<char>, n: nat)
    requires
        0 <= i <= list.len(),
        forall|j: int| 0 <= j < i ==> !starts_with(#[trigger] list[j], "Pss:"@),
        n <= u64::MAX,
    ensures
        i == list.len() ==> pss_in(list) is None,
        i < list.len() && list[i] == "Pss:"@ + rest && words(rest).len() > 0 && words(rest)[0] == decimal(n)
            ==> pss_in(list) == Some(n),
        i < list.len() && list[i] == "Pss:"@ + rest && words(rest).len() == 0 ==> pss_in(list) is None,
    decreases list.len(),
{
    if i > 0 {
        assert(!starts_with(list[0], "Pss:"@));
        let tail = list.drop_first();
        assert forall|j: int| 0 <= j < i - 1 implies !starts_with(#[trigger] tail[j], "Pss:"@) by {
            assert(tail[j] == list[j + 1]);
        }
        law_first_mark_counts(tail, i - 1, rest, n);
    } else if i < list.len() && list[i] == "Pss:"@ + rest {
        law_begins_and_ends("Pss:"@, rest, list[i]);
        assert(list[0].skip("Pss:"@.len() as int) =~= rest);
        law_decimal_reads_back(n, u64::MAX as nat);
    }
}

/// The memory of a process is its part of what it shares, in whole MiB of 1024 KiB, where that
/// is known, and else what it holds, in whole MiB of 1024 times 1024 bytes; a rest is dropped.
pub proof fn law_whole_mib(pss_kib: Option<u64>, memory_bytes: u64)
    ensures
        pss_kib matches Some(kib) ==> 1024 * mib_of_process(pss_kib, memory_bytes) <= kib && kib < 1024 * (
        mib_of_process(pss_kib, memory_bytes) + 1),
        pss_kib is None ==> 1_048_576 * mib_of_process(pss_kib, memory_bytes) <= memory_bytes && memory_bytes
            < 1_048_576 * (mib_of_process(pss_kib, memory_bytes) + 1),
{
}

} // verus!

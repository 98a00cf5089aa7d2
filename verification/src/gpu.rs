//! Graphics cards: what the system says of them, and what they are called.

use crate::models::GpuStats;
use crate::reading::{
    law_min_is_smaller, law_order_is_numeric, law_percent_is_share, law_threshold_values, Reading,
    ZERO,
};
use crate::split::{
    fields, joined_by, law_fields_of_joined, law_lines, lines, split_fields, split_lines, texts,
};
use crate::text::{
    begins_with, begins_with_str, chars_of, copy_str, is_digit, is_white, law_begins_and_ends,
    law_strip_leaves_middle, law_strip_takes_ends, lower, same_text, starts_with, string_of,
    to_lower, trim, trimmed, Strip,
};
use vstd::prelude::*;
use vstd::slice::slice_subrange;

verus! {

broadcast use vstd::string::group_string_axioms;

// ---------------------------------------------------------------------------
// One line of values
// ---------------------------------------------------------------------------

/// The texts of a graphics card: its name and four figures.
#[derive(Debug)]
pub struct CardFields {
    pub name: String,
    pub usage: String,
    pub temperature: String,
    pub used: String,
    pub total: String,
}

/// The fields of the first line of a table, without the white space around them.
pub open spec fn first_fields(text: Seq<char>) -> Seq<Seq<char>> {
    if lines(text).len() == 0 {
        Seq::empty()
    } else {
        let list = fields(trim(lines(text)[0]), ',');
        Seq::new(list.len(), |i: int| trim(list[i]))
    }
}

/// The first five fields of the first line of a table: name, use, temperature, memory in use and
/// memory in all; none where there are fewer.
pub open spec fn fields_of_card(text: Seq<char>) -> Option<(Seq<char>, Seq<char>, Seq<char>, Seq<char>, Seq<char>)> {
    let list = first_fields(text);
    if list.len() >= 5 {
        Some((list[0], list[1], list[2], list[3], list[4]))
    } else {
        None
    }
}

/// The first five fields of the first line of a table; none where there are fewer.
pub fn card_fields(text: &str) -> (r: Option<CardFields>)
    ensures
        fields_of_card(text@) == (match r {
            Some(f) => Some((f.name@, f.usage@, f.temperature@, f.used@, f.total@)),
            None => None,
        }),
        match r {
            Some(f) => {
                let list = first_fields(text@);
                &&& list.len() >= 5
                &&& f.name@ == list[0]
                &&& f.usage@ == list[1]
                &&& f.temperature@ == list[2]
                &&& f.used@ == list[3]
                &&& f.total@ == list[4]
            },
            None => first_fields(text@).len() < 5,
        },
{
    let chars = chars_of(text);
    let list = split_lines(chars.as_slice());
    if list.len() == 0 {
        assert(texts(list@).len() == 0);
        return None;
    }
    assert(texts(list@)[0] == list@[0]@);
    let parts = split_fields(trimmed(list[0]), ',');
    assert(texts(parts@).len() == parts@.len());
    if parts.len() < 5 {
        return None;
    }
    assert forall|i: int| 0 <= i < parts@.len() implies texts(parts@)[i] == (#[trigger] parts@[i])@ by {}
    Some(
        CardFields {
            name: string_of(trimmed(parts[0])),
            usage: string_of(trimmed(parts[1])),
            temperature: string_of(trimmed(parts[2])),
            used: string_of(trimmed(parts[3])),
            total: string_of(trimmed(parts[4])),
        },
    )
}

/// The card that a name and four figures describe; none where a figure is missing.
pub open spec fn described_card(
    name: String,
    usage: Option<Reading>,
    temperature: Option<Reading>,
    used: Option<Reading>,
    total: Option<Reading>,
) -> Option<GpuStats> {
    match (usage, temperature, used, total) {
        (Some(usage_pct), Some(temp_c), Some(vram_used_mib), Some(vram_total_mib)) => Some(
            GpuStats { name, usage_pct, temp_c, vram_used_mib, vram_total_mib },
        ),
        _ => None,
    }
}

/// The card that a name and four figures describe; none where a figure is missing.
pub fn card_of_fields(
    name: String,
    usage: Option<Reading>,
    temperature: Option<Reading>,
    used: Option<Reading>,
    total: Option<Reading>,
) -> (r: Option<GpuStats>)
    ensures
        r == described_card(name, usage, temperature, used, total),
        r is Some <==> usage is Some && temperature is Some && used is Some && total is Some,
        r matches Some(card) ==> card == (GpuStats {
            name,
            usage_pct: usage->0,
            temp_c: temperature->0,
            vram_used_mib: used->0,
            vram_total_mib: total->0,
        }),
{
    match (usage, temperature, used, total) {
        (Some(usage_pct), Some(temp_c), Some(vram_used_mib), Some(vram_total_mib)) => Some(
            GpuStats { name, usage_pct, temp_c, vram_used_mib, vram_total_mib },
        ),
        _ => None,
    }
}

// ---------------------------------------------------------------------------
// The files of a card
// ---------------------------------------------------------------------------

/// Whether a directory is that of a card: `card` and a number.
pub open spec fn names_card(name: Seq<char>) -> bool {
    let index = name.skip("card"@.len() as int);
    starts_with(name, "card"@) && index.len() > 0 && crate::number::all_digits(index)
}

/// Whether a directory is that of a card.
pub fn is_drm_card_dir(name: &str) -> (r: bool)
    ensures
        r == names_card(name@),
{
    let chars = chars_of(name);
    let prefix = chars_of("card");
    if !begins_with(chars.as_slice(), prefix.as_slice()) {
        return false;
    }
    let index = slice_subrange(chars.as_slice(), prefix.len(), chars.len());
    assert(index@ =~= name@.skip("card"@.len() as int));
    for i in 0..index.len()
        invariant
            index@ == name@.skip("card"@.len() as int),
            forall|j: int| 0 <= j < i ==> is_digit(#[trigger] index@[j]),
    {
        if !('0' <= index[i] && index[i] <= '9') {
            assert(!is_digit(index@[i as int]));
            return false;
        }
    }
    index.len() > 0
}

/// The makers whose cards are read from files.
#[derive(Debug, Clone, Copy, PartialEq, Eq, Structural)]
pub enum Maker {
    Amd,
    Intel,
}

impl Maker {
    /// The number by which the system knows the maker.
    pub open spec fn id(self) -> Seq<char> {
        match self {
            Maker::Amd => "0x1002"@,
            Maker::Intel => "0x8086"@,
        }
    }

    /// What stands before the name of a card.
    pub open spec fn prefix(self) -> Seq<char> {
        match self {
            Maker::Amd => "AMD "@,
            Maker::Intel => "Intel "@,
        }
    }

    /// Whether a name in lower case says who the maker is.
    pub open spec fn is_named_in(self, name: Seq<char>) -> bool {
        match self {
            Maker::Amd => starts_with(name, "amd "@) || starts_with(name, "advanced micro devices"@),
            Maker::Intel => starts_with(name, "intel "@) || starts_with(name, "intel corporation"@),
        }
    }

    /// Whether the file that names the maker of a card names this one.
    pub open spec fn made(self, text: Seq<char>) -> bool {
        trim(text) == self.id()
    }

    /// Whether the file that names the maker of a card names this one.
    pub fn is_vendor(self, text: &str) -> (r: bool)
        ensures
            r == self.made(text@),
            r == (trim(text@) == self.id()),
    {
        let chars = chars_of(text);
        let id = match self {
            Maker::Amd => chars_of("0x1002"),
            Maker::Intel => chars_of("0x8086"),
        };
        same_text(trimmed(chars.as_slice()), id.as_slice())
    }

    pub fn prefix_text(self) -> (r: String)
        ensures
            r@ == self.prefix(),
    {
        match self {
            Maker::Amd => copy_str("AMD "),
            Maker::Intel => copy_str("Intel "),
        }
    }

    pub fn named_in(self, name: &[char]) -> (r: bool)
        ensures
            r == self.is_named_in(name@),
    {
        match self {
            Maker::Amd => begins_with_str(name, "amd ") || begins_with_str(name, "advanced micro devices"),
            Maker::Intel => begins_with_str(name, "intel ") || begins_with_str(name, "intel corporation"),
        }
    }
}

/// A figure; zero where it is not known.
pub open spec fn or_zero(r: Option<Reading>) -> Reading {
    match r {
        Some(r) => r,
        None => Reading { bits: ZERO },
    }
}

fn reading_or_zero(r: Option<Reading>) -> (x: Reading)
    ensures
        x == or_zero(r),
{
    match r {
        Some(r) => r,
        None => Reading { bits: ZERO },
    }
}

/// The memory in use; no more than there is, where it is known how much there is.
pub open spec fn vram_in_use(used: Reading, total: Reading) -> Reading {
    if (Reading { bits: ZERO }).below(total) {
        used.min(total)
    } else {
        used
    }
}

/// What is known of a card but for its name.
#[derive(Debug, Clone, Copy)]
pub struct CardFigures {
    pub usage_pct: Reading,
    pub temp_c: Reading,
    pub vram_used_mib: Reading,
    pub vram_total_mib: Reading,
}

/// The figures of a card, with zero for what is not known.
pub open spec fn card_figures(
    usage: Option<Reading>,
    temp: Option<Reading>,
    used: Option<Reading>,
    total: Option<Reading>,
) -> CardFigures {
    CardFigures {
        usage_pct: or_zero(usage).to_percent(),
        temp_c: or_zero(temp),
        vram_used_mib: vram_in_use(or_zero(used), or_zero(total)),
        vram_total_mib: or_zero(total),
    }
}

/// Whether nothing is known of a card.
pub open spec fn is_idle_card(usage: Option<Reading>, temp: Option<Reading>, total: Option<Reading>) -> bool {
    let zero = Reading { bits: ZERO };
    or_zero(usage).at_most(zero) && or_zero(temp).at_most(zero) && or_zero(total).at_most(zero)
}

/// The figures of a card of AMD; none where nothing is known of it.
pub open spec fn amd_figures(
    usage: Option<Reading>,
    temp: Option<Reading>,
    used: Option<Reading>,
    total: Option<Reading>,
) -> Option<CardFigures> {
    if is_idle_card(usage, temp, total) {
        None
    } else {
        Some(card_figures(usage, temp, used, total))
    }
}

/// The figures of a card of AMD; none where nothing is known of it.
pub fn read_amd_card_stats(
    usage: Option<Reading>,
    temp: Option<Reading>,
    used: Option<Reading>,
    total: Option<Reading>,
) -> (r: Option<CardFigures>)
    ensures
        r == amd_figures(usage, temp, used, total),
        r == (if is_idle_card(usage, temp, total) {
            None
        } else {
            Some(card_figures(usage, temp, used, total))
        }),
{
    let zero = Reading { bits: ZERO };
    if reading_or_zero(usage).no_more(zero) && reading_or_zero(temp).no_more(zero) && reading_or_zero(
        total,
    ).no_more(zero) {
        return None;
    }
    Some(read_intel_card_stats(usage, temp, used, total))
}

/// The figures of a card of Intel.
pub fn read_intel_card_stats(
    usage: Option<Reading>,
    temp: Option<Reading>,
    used: Option<Reading>,
    total: Option<Reading>,
) -> (r: CardFigures)
    ensures
        r == card_figures(usage, temp, used, total),
{
    let zero = Reading { bits: ZERO };
    let vram_total_mib = reading_or_zero(total);
    let vram_used = reading_or_zero(used);
    let vram_used_mib = if zero.less(vram_total_mib) {
        vram_used.smaller(vram_total_mib)
    } else {
        vram_used
    };
    CardFigures {
        usage_pct: reading_or_zero(usage).clamped(),
        temp_c: reading_or_zero(temp),
        vram_used_mib,
        vram_total_mib,
    }
}

/// The card with its name.
pub open spec fn card_named(figures: CardFigures, name: String) -> GpuStats {
    GpuStats {
        name,
        usage_pct: figures.usage_pct,
        temp_c: figures.temp_c,
        vram_used_mib: figures.vram_used_mib,
        vram_total_mib: figures.vram_total_mib,
    }
}

/// The card with its name.
pub fn named_card(figures: CardFigures, name: String) -> (r: GpuStats)
    ensures
        r == card_named(figures, name),
        r == (GpuStats {
            name,
            usage_pct: figures.usage_pct,
            temp_c: figures.temp_c,
            vram_used_mib: figures.vram_used_mib,
            vram_total_mib: figures.vram_total_mib,
        }),
{
    GpuStats {
        name,
        usage_pct: figures.usage_pct,
        temp_c: figures.temp_c,
        vram_used_mib: figures.vram_used_mib,
        vram_total_mib: figures.vram_total_mib,
    }
}

// ---------------------------------------------------------------------------
// The use of a card of Intel
// ---------------------------------------------------------------------------

/// The first figure that is known, as a share.
pub open spec fn first_share(list: Seq<Option<Reading>>) -> Option<Reading>
    decreases list.len(),
{
    if list.len() == 0 {
        None
    } else {
        match list[0] {
            Some(r) => Some(r.to_percent()),
            None => first_share(list.drop_first()),
        }
    }
}

/// The first figure that is known, as a share.
pub fn first_known_share(list: &Vec<Option<Reading>>) -> (r: Option<Reading>)
    ensures
        r == first_share(list@),
{
    let mut i: usize = 0;
    assert(list@.skip(0) =~= list@);
    while i < list.len()
        invariant
            i <= list@.len(),
            first_share(list@) == first_share(list@.skip(i as int)),
        decreases list@.len() - i,
    {
        if let Some(r) = list[i] {
            return Some(r.clamped());
        }
        assert(list@.skip(i as int).drop_first() =~= list@.skip(i + 1));
        i = i + 1;
    }
    None
}

/// Whether a pair of frequencies, the actual and the highest, gives a share.
pub open spec fn gives_share(pair: (Option<Reading>, Option<Reading>)) -> bool {
    pair.0 is Some && pair.1 is Some && (Reading { bits: ZERO }).below(pair.1->0)
}

/// The first pair of frequencies that gives a share.
pub fn first_frequency_pair(list: &Vec<(Option<Reading>, Option<Reading>)>) -> (r: Option<(Reading, Reading)>)
    ensures
        match r {
            Some((act, max)) => exists|i: int|
                {
                    &&& 0 <= i < list@.len()
                    &&& gives_share(#[trigger] list@[i])
                    &&& list@[i] == (Some(act), Some(max))
                    &&& forall|j: int| 0 <= j < i ==> !gives_share(#[trigger] list@[j])
                },
            None => forall|j: int| 0 <= j < list@.len() ==> !gives_share(#[trigger] list@[j]),
        },
{
    for i in 0..list.len()
        invariant
            forall|j: int| 0 <= j < i ==> !gives_share(#[trigger] list@[j]),
    {
        if let (Some(act), Some(max)) = list[i] {
            if (Reading { bits: ZERO }).less(max) {
                assert(gives_share(list@[i as int]));
                return Some((act, max));
            }
        }
        assert(!gives_share(list@[i as int]));
    }
    None
}

/// The use of a card: the first share that is known, and where none is, the share that the
/// frequencies give, from 0 to 100.
pub open spec fn share_of_card(shares: Seq<Option<Reading>>, quotient: Option<Reading>) -> Option<Reading> {
    match first_share(shares) {
        Some(share) => Some(share),
        None => match quotient {
            Some(quotient) => Some(quotient.to_percent()),
            None => None,
        },
    }
}

/// The use of a card: the first share that is known, and where none is, the share that the
/// frequencies give.
pub fn intel_share(shares: &Vec<Option<Reading>>, quotient: Option<Reading>) -> (r: Option<Reading>)
    ensures
        r == share_of_card(shares@, quotient),
{
    match first_known_share(shares) {
        Some(share) => Some(share),
        None => match quotient {
            Some(quotient) => Some(quotient.clamped()),
            None => None,
        },
    }
}

/// The use of a card lies from 0 to 100, where what was read are numbers.
pub proof fn law_use_of_card_is_share(shares: Seq<Option<Reading>>, quotient: Option<Reading>)
    requires
        forall|i: int| 0 <= i < shares.len() ==> ((#[trigger] shares[i]) matches Some(r) ==> !r.is_nan()),
        quotient matches Some(r) ==> !r.is_nan(),
    ensures
        share_of_card(shares, quotient) matches Some(r) ==> r.is_share(),
    decreases shares.len(),
{
    if shares.len() > 0 && shares[0] is None {
        let rest = shares.drop_first();
        assert forall|i: int| 0 <= i < rest.len() implies ((#[trigger] rest[i]) matches Some(r)
            ==> !r.is_nan()) by {
            assert(rest[i] == shares[i + 1]);
        }
        law_use_of_card_is_share(rest, quotient);
    }
}

// ---------------------------------------------------------------------------
// The memory of a card of Intel
// ---------------------------------------------------------------------------

/// A region of memory as its directory describes it.
#[derive(Debug)]
pub struct MemoryRegion {
    pub directory: String,
    pub label: Option<String>,
    pub total: Option<u64>,
    pub size: Option<u64>,
    pub used: Option<u64>,
}

impl MemoryRegion {
    /// Whether the region is memory of the card itself.
    pub open spec fn is_local(self) -> bool {
        &&& starts_with(self.directory@, "memory_region"@)
        &&& self.label matches Some(label) && {
            let name = lower(trim(label@));
            starts_with(name, "local"@) || starts_with(name, "lmem"@)
        }
    }

    /// How large the region is, where that is known.
    pub open spec fn extent(self) -> Option<u64> {
        match self.total {
            Some(n) => Some(n),
            None => self.size,
        }
    }

    /// How much of the region counts, in use and in all.
    pub open spec fn counts(self) -> (int, int) {
        match self.extent() {
            Some(total) => if self.is_local() {
                let used = match self.used {
                    Some(n) => n,
                    None => 0,
                };
                (
                    if used < total {
                        used as int
                    } else {
                        total as int
                    },
                    total as int,
                )
            } else {
                (0, 0)
            },
            None => (0, 0),
        }
    }

    fn local(&self) -> (r: bool)
        ensures
            r == self.is_local(),
    {
        let directory = chars_of(self.directory.as_str());
        if !begins_with_str(directory.as_slice(), "memory_region") {
            return false;
        }
        match &self.label {
            Some(label) => {
                let chars = chars_of(label.as_str());
                let name = to_lower(trimmed(chars.as_slice()));
                begins_with_str(name.as_slice(), "local") || begins_with_str(name.as_slice(), "lmem")
            },
            None => false,
        }
    }

    fn count(&self) -> (r: (u64, u64))
        ensures
            (r.0 as int, r.1 as int) == self.counts(),
    {
        let total = match self.total {
            Some(n) => Some(n),
            None => self.size,
        };
        match total {
            Some(total) => if self.local() {
                let used: u64 = match self.used {
                    Some(n) => n,
                    None => 0,
                };
                if used < total {
                    (used, total)
                } else {
                    (total, total)
                }
            } else {
                (0, 0)
            },
            None => (0, 0),
        }
    }
}

/// What regions count for together, in use and in all, each up to what a number holds.
pub open spec fn regions_count(list: Seq<MemoryRegion>) -> (int, int)
    decreases list.len(),
{
    if list.len() == 0 {
        (0, 0)
    } else {
        let (used, total) = regions_count(list.drop_last());
        let (u, t) = list.last().counts();
        (
            crate::number::least(used + u, u64::MAX as int),
            crate::number::least(total + t, u64::MAX as int),
        )
    }
}

/// The memory of a card in its regions, in use and in all; none where it has none of its own.
pub fn local_memory(list: &Vec<MemoryRegion>) -> (r: Option<(u64, u64)>)
    ensures
        match r {
            Some((used, total)) => regions_count(list@) == (used as int, total as int) && total > 0,
            None => regions_count(list@).1 == 0,
        },
        r matches Some((used, total)) ==> used <= total,
{
    let mut used: u64 = 0;
    let mut total: u64 = 0;
    for i in 0..list.len()
        invariant
            regions_count(list@.take(i as int)) == (used as int, total as int),
            used <= total,
    {
        assert(list@.take(i + 1).drop_last() =~= list@.take(i as int));
        let (u, t) = list[i].count();
        used = used.saturating_add(u);
        total = total.saturating_add(t);
    }
    assert(list@.take(list@.len() as int) =~= list@);
    if total == 0 {
        None
    } else {
        Some((used, total))
    }
}

/// The memory of a card, in use and in all: as its own files say, where both do, else in its
/// regions.
pub fn card_memory(used: Option<u64>, total: Option<u64>, regions: &Vec<MemoryRegion>) -> (r: Option<(u64, u64)>)
    ensures
        match (used, total) {
            (Some(used), Some(total)) => r == Some((used, total)),
            _ => match r {
                Some((used, total)) => regions_count(regions@) == (used as int, total as int) && total > 0,
                None => regions_count(regions@).1 == 0,
            },
        },
{
    match (used, total) {
        (Some(used), Some(total)) => Some((used, total)),
        _ => local_memory(regions),
    }
}

// ---------------------------------------------------------------------------
// Laws
// ---------------------------------------------------------------------------

/// A card whose memory in use is known and no more than it has shows just that; one that claims
/// to use more than it has shows what it has. What is known of the temperature and of the memory
/// in all is shown as it is, and what is not known as zero.
pub proof fn law_card_memory(
    usage: Option<Reading>,
    temp: Option<Reading>,
    used: Reading,
    total: Reading,
)
    requires
        !used.is_nan(),
        !total.is_nan(),
    ensures
        0 <= used.value() <= total.value() ==> card_figures(usage, temp, Some(used), Some(total)).vram_used_mib.value()
            == used.value(),
        0 < total.value() && used.value() < total.value() ==> card_figures(
            usage,
            temp,
            Some(used),
            Some(total),
        ).vram_used_mib == used,
        0 < total.value() < used.value() ==> card_figures(usage, temp, Some(used), Some(total)).vram_used_mib == total,
        card_figures(usage, temp, Some(used), None).vram_used_mib == used,
        total.value() <= 0 ==> card_figures(usage, temp, Some(used), Some(total)).vram_used_mib == used,
        card_figures(usage, temp, None, Some(total)).vram_used_mib.value() == 0,
        card_figures(usage, temp, Some(used), Some(total)).vram_total_mib == total,
        card_figures(usage, temp, Some(used), None).vram_total_mib.value() == 0,
        temp is Some ==> card_figures(usage, temp, Some(used), Some(total)).temp_c == temp->0,
        temp is None ==> card_figures(usage, temp, Some(used), Some(total)).temp_c.value() == 0,
{
    let zero = Reading { bits: ZERO };
    law_threshold_values();
    law_order_is_numeric(zero, total);
    law_order_is_numeric(zero, zero);
    law_min_is_smaller(used, total);
    law_min_is_smaller(zero, total);
}

/// The use of a card is what was read where that lies from 0 to 100, and zero where nothing was
/// read.
pub proof fn law_card_usage(usage: Reading, temp: Option<Reading>, used: Option<Reading>, total: Option<Reading>)
    requires
        !usage.is_nan(),
    ensures
        usage.is_share() ==> card_figures(Some(usage), temp, used, total).usage_pct == usage,
        card_figures(Some(usage), temp, used, total).usage_pct.is_share(),
        card_figures(Some(usage), temp, used, total).usage_pct == usage.to_percent(),
        card_figures(None, temp, used, total).usage_pct.value() == 0,
{
    law_threshold_values();
    law_percent_is_share(usage);
}

/// A card is passed over where its use, its temperature and its memory are all unknown or not
/// above zero, and only there.
pub proof fn law_idle_card(usage: Option<Reading>, temp: Option<Reading>, total: Option<Reading>)
    requires
        usage matches Some(r) ==> !r.is_nan(),
        temp matches Some(r) ==> !r.is_nan(),
        total matches Some(r) ==> !r.is_nan(),
    ensures
        is_idle_card(usage, temp, total) <==> {
            &&& usage matches Some(r) ==> r.value() <= 0
            &&& temp matches Some(r) ==> r.value() <= 0
            &&& total matches Some(r) ==> r.value() <= 0
        },
{
    let zero = Reading { bits: ZERO };
    law_threshold_values();
    law_order_is_numeric(or_zero(usage), zero);
    law_order_is_numeric(or_zero(temp), zero);
    law_order_is_numeric(or_zero(total), zero);
}

/// The share of a card is the first one that is known, whatever stands behind it and whatever
/// the frequencies give; these count only where none is known.
pub proof fn law_first_known_counts(shares: Seq<Option<Reading>>, quotient: Option<Reading>, i: int)
    requires
        forall|j: int| 0 <= j < i ==> (#[trigger] shares[j]) is None,
        0 <= i <= shares.len(),
    ensures
        i < shares.len() && shares[i] is Some ==> share_of_card(shares, quotient) == Some((shares[i]->0).to_percent()),
        i < shares.len() && shares[i] is Some && (shares[i]->0).is_share() ==> share_of_card(shares, quotient)
            == shares[i],
        i == shares.len() && quotient is None ==> share_of_card(shares, quotient) is None,
        i == shares.len() && quotient is Some ==> share_of_card(shares, quotient) == Some((quotient->0).to_percent()),
        i == shares.len() && quotient is Some && (quotient->0).is_share() ==> share_of_card(shares, quotient)
            == quotient,
    decreases shares.len(),
{
    if i > 0 {
        assert(shares[0] is None);
        let rest = shares.drop_first();
        assert forall|j: int| 0 <= j < i - 1 implies (#[trigger] rest[j]) is None by {
            assert(shares[j + 1] is None);
        }
        law_first_known_counts(rest, quotient, i - 1);
    }
    if i < shares.len() && shares[i] is Some && (shares[i]->0).is_share() {
        law_percent_is_share(shares[i]->0);
    }
    if quotient is Some && (quotient->0).is_share() {
        law_percent_is_share(quotient->0);
    }
}

/// A region of the card counts with what it has and what of that is in use; a region of another
/// kind, or of unknown size, does not count.
pub proof fn law_region_counts(region: MemoryRegion, used: u64, total: u64)
    ensures
        region.is_local() && region.total == Some(total) && region.used == Some(used) && used <= total
            ==> region.counts() == (used as int, total as int),
        region.is_local() && region.total == Some(total) && region.used == Some(used) && used > total
            ==> region.counts() == (total as int, total as int),
        region.is_local() && region.total == Some(total) && region.used is None ==> region.counts() == (
            0int,
            total as int,
        ),
        region.is_local() && region.total is None && region.size == Some(total) && region.used == Some(used)
            && used <= total ==> region.counts() == (used as int, total as int),
        !region.is_local() ==> region.counts() == (0int, 0int),
        region.total is None && region.size is None ==> region.counts() == (0int, 0int),
{
}

/// Regions count together what each counts, as long as that is a number.
pub proof fn law_regions_add_up(list: Seq<MemoryRegion>, region: MemoryRegion)
    ensures
        regions_count(Seq::<MemoryRegion>::empty()) == (0int, 0int),
        regions_count(list).0 + region.counts().0 <= u64::MAX ==> regions_count(list.push(region)).0 == regions_count(
            list,
        ).0 + region.counts().0,
        regions_count(list).1 + region.counts().1 <= u64::MAX ==> regions_count(list.push(region)).1 == regions_count(
            list,
        ).1 + region.counts().1,
        regions_count(list.push(region)).0 <= u64::MAX,
        regions_count(list.push(region)).1 <= u64::MAX,
        regions_count(list).1 + region.counts().1 > u64::MAX ==> regions_count(list.push(region)).1 == u64::MAX,
{
    assert(list.push(region).drop_last() =~= list);
}

/// A region is memory of the card where its directory begins with `memory_region` and its label
/// with `local` or `lmem`, in whatever case.
pub proof fn law_local_region(region: MemoryRegion, a: Seq<char>, b: Seq<char>)
    requires
        region.label is Some,
        region.directory@ == "memory_region"@ + a,
    ensures
        lower(trim((region.label->0)@)) == "local"@ + b ==> region.is_local(),
        lower(trim((region.label->0)@)) == "lmem"@ + b ==> region.is_local(),
        region.is_local() ==> exists|c: Seq<char>|
            lower(trim((region.label->0)@)) == "local"@ + c || lower(trim((region.label->0)@)) == "lmem"@ + c,
{
    let name = lower(trim((region.label->0)@));
    law_begins_and_ends("memory_region"@, a, name);
    law_begins_and_ends("local"@, b, name);
    law_begins_and_ends("lmem"@, b, name);
}

/// The directory of a card is `card` with digits behind it, at least one, and nothing else.
pub proof fn law_card_directory(name: Seq<char>, digits: Seq<char>)
    ensures
        names_card(name) ==> exists|d: Seq<char>|
            name == "card"@ + d && d.len() > 0 && crate::number::all_digits(d),
        digits.len() > 0 && crate::number::all_digits(digits) ==> names_card("card"@ + digits),
        !names_card("card"@),
{
    law_begins_and_ends("card"@, digits, name);
    assert(("card"@ + digits).skip("card"@.len() as int) =~= digits);
    if names_card(name) {
        let d = name.skip("card"@.len() as int);
        assert(name =~= "card"@ + d);
    }
}

/// The five fields of a line with commas between them are the fields of the card, each without
/// the white space around it, whatever lines follow.
pub proof fn law_fields_of_card(list: Seq<Seq<char>>, rest: Seq<char>)
    requires
        list.len() > 0,
        forall|k: int|
            0 <= k < list.len() ==> !(#[trigger] list[k]).contains(',') && !list[k].contains('\n') && list[k].len() > 0
                && trim(list[k]) == list[k],
    ensures
        first_fields(joined_by(list, ',').push('\n') + rest) == list,
{
    let line = joined_by(list, ',');
    assert forall|k: int| 0 <= k < list.len() implies !(#[trigger] list[k]).contains('\n') && list[k].len() > 0
        && !is_white(list[k][0]) && !is_white(list[k].last()) by {
        law_strip_takes_ends(list[k], Strip::White);
    }
    lemma_joined_line(list);
    law_fields_of_joined(list, ',');
    law_lines(line, rest);
    let s = line.push('\n') + rest;
    assert(lines(s)[0] == line);
    law_strip_leaves_middle(line, Strip::White);
    assert(first_fields(s) =~= list) by {
        assert forall|i: int| 0 <= i < list.len() implies first_fields(s)[i] == list[i] by {
            assert(trim(list[i]) == list[i]);
        }
    }
}

proof fn lemma_joined_line(list: Seq<Seq<char>>)
    requires
        list.len() > 0,
        forall|k: int|
            0 <= k < list.len() ==> !(#[trigger] list[k]).contains('\n') && list[k].len() > 0 && !is_white(list[k][0])
                && !is_white(list[k].last()),
    ensures
        joined_by(list, ',').len() > 0,
        !joined_by(list, ',').contains('\n'),
        !is_white(joined_by(list, ',')[0]),
        !is_white(joined_by(list, ',').last()),
    decreases list.len(),
{
    let head = list[0];
    assert(!list[0].contains('\n'));
    if list.len() > 1 {
        let rest = list.drop_first();
        assert forall|k: int| 0 <= k < rest.len() implies !(#[trigger] rest[k]).contains('\n') && rest[k].len() > 0
            && !is_white(rest[k][0]) && !is_white(rest[k].last()) by {
            assert(rest[k] == list[k + 1]);
        }
        lemma_joined_line(rest);
        let s = joined_by(list, ',');
        let tail = joined_by(rest, ',');
        assert(s == head.push(',') + tail);
        assert(s.last() == tail.last());
        assert(s[0] == head[0]);
        if s.contains('\n') {
            let i = choose|i: int| 0 <= i < s.len() && s[i] == '\n';
            if i < head.len() {
                assert(head[i] == '\n');
            } else if i > head.len() {
                assert(tail[i - head.len() - 1] == '\n');
            }
        }
    }
}

/// The makers are told apart by their numbers. A name says who the maker is where it begins with
/// the brand or with the full name, in lower case, and nowhere else.
pub proof fn law_makers(name: Seq<char>, rest: Seq<char>)
    ensures
        Maker::Amd.id() == "0x1002"@,
        Maker::Intel.id() == "0x8086"@,
        Maker::Amd.prefix() == "AMD "@,
        Maker::Intel.prefix() == "Intel "@,
        Maker::Amd.is_named_in("amd "@ + rest),
        Maker::Amd.is_named_in("advanced micro devices"@ + rest),
        Maker::Intel.is_named_in("intel "@ + rest),
        Maker::Intel.is_named_in("intel corporation"@ + rest),
        Maker::Amd.is_named_in(name) ==> exists|r: Seq<char>|
            name == "amd "@ + r || name == "advanced micro devices"@ + r,
        Maker::Intel.is_named_in(name) ==> exists|r: Seq<char>|
            name == "intel "@ + r || name == "intel corporation"@ + r,
{
    law_begins_and_ends("amd "@, rest, name);
    law_begins_and_ends("advanced micro devices"@, rest, name);
    law_begins_and_ends("intel "@, rest, name);
    law_begins_and_ends("intel corporation"@, rest, name);
}

/// The figures of the card keep their places: what is read of each goes to its own field.
pub proof fn law_fields_keep_places(text: Seq<char>, list: Seq<Seq<char>>, name: String, figures: CardFigures)
    requires
        first_fields(text) == list,
    ensures
        list.len() >= 5 ==> fields_of_card(text) is Some && (fields_of_card(text)->0).0 == list[0] && (fields_of_card(
            text,
        )->0).1 == list[1] && (fields_of_card(text)->0).2 == list[2] && (fields_of_card(text)->0).3 == list[3] && (
        fields_of_card(text)->0).4 == list[4],
        list.len() < 5 ==> fields_of_card(text) is None,
        card_named(figures, name).name == name,
        card_named(figures, name).usage_pct == figures.usage_pct,
        card_named(figures, name).temp_c == figures.temp_c,
        card_named(figures, name).vram_used_mib == figures.vram_used_mib,
        card_named(figures, name).vram_total_mib == figures.vram_total_mib,
{
}

/// A card of which all four figures were read has them, each in its place; where one is missing
/// there is no card.
pub proof fn law_card_needs_all_figures(
    name: String,
    usage: Reading,
    temperature: Reading,
    used: Reading,
    total: Reading,
)
    ensures
        ({
            let card = described_card(name, Some(usage), Some(temperature), Some(used), Some(total));
            &&& card is Some
            &&& (card->0).name == name
            &&& (card->0).usage_pct == usage
            &&& (card->0).temp_c == temperature
            &&& (card->0).vram_used_mib == used
            &&& (card->0).vram_total_mib == total
        }),
        described_card(name, None, Some(temperature), Some(used), Some(total)) is None,
        described_card(name, Some(usage), None, Some(used), Some(total)) is None,
        described_card(name, Some(usage), Some(temperature), None, Some(total)) is None,
        described_card(name, Some(usage), Some(temperature), Some(used), None) is None,
{
}

/// A card of AMD has the figures that a card of Intel would have, unless its use, its temperature
/// and its memory are all unknown or not above zero: then it has none.
pub proof fn law_figures_of_both_makers(
    usage: Option<Reading>,
    temp: Option<Reading>,
    used: Option<Reading>,
    total: Option<Reading>,
)
    requires
        usage matches Some(r) ==> !r.is_nan(),
        temp matches Some(r) ==> !r.is_nan(),
        total matches Some(r) ==> !r.is_nan(),
    ensures
        (usage matches Some(r) && r.value() > 0) || (temp matches Some(r) && r.value() > 0) || (total matches Some(r)
            && r.value() > 0) ==> amd_figures(usage, temp, used, total) == Some(card_figures(usage, temp, used, total)),
        !(usage matches Some(r) && r.value() > 0) && !(temp matches Some(r) && r.value() > 0) && !(total matches Some(
            r,
        ) && r.value() > 0) ==> amd_figures(usage, temp, used, total) is None,
{
    law_idle_card(usage, temp, total);
}

/// Frequencies give a share where both are known and the higher one is above zero.
pub proof fn law_frequencies_give_share(act: Reading, max: Reading)
    requires
        !max.is_nan(),
    ensures
        gives_share((Some(act), Some(max))) <==> max.value() > 0,
        !gives_share((None, Some(max))),
        !gives_share((Some(act), None)),
{
    law_threshold_values();
    law_order_is_numeric(Reading { bits: ZERO }, max);
}

/// A maker is known by the number in the file, but for white space; no file names both.
pub proof fn law_one_maker(text: Seq<char>)
    ensures
        trim(text) == "0x1002"@ <==> Maker::Amd.made(text),
        trim(text) == "0x8086"@ <==> Maker::Intel.made(text),
        !(Maker::Amd.made(text) && Maker::Intel.made(text)),
{
    reveal_strlit("0x1002");
    reveal_strlit("0x8086");
    assert("0x1002"@[2] != "0x8086"@[2]);
}

} // verus!

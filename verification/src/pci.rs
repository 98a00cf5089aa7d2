//! What a graphics card is called: out of the files of the card, the list of devices on the
//! bus, or the register of known devices.

use crate::desktop::{either, opt_view, some_text, str_view, without_one};
use crate::gpu::Maker;
use crate::split::{
    cut, joined_by, law_cut_at_first, lines, split_lines, split_once, split_words, texts, words,
};
use crate::text::{
    begins_with, chars_of, copy_str, find_char, find_text, is_white, law_begins_and_ends,
    law_first_char, law_first_occurrence, law_strip_leaves_middle, lower, lower_string,
    position_of, position_of_text, same_ignoring_case, same_text, stands_at, starts_with,
    string_of, strip_start, to_lower, trim, trimmed, Strip,
};
use vstd::prelude::*;
use vstd::slice::slice_subrange;

verus! {

broadcast use vstd::string::group_string_axioms;

// ---------------------------------------------------------------------------
// White space
// ---------------------------------------------------------------------------

/// Words with one space between them.
pub open spec fn spaced(list: Seq<Seq<char>>) -> Seq<char>
    decreases list.len(),
{
    if list.len() == 0 {
        Seq::empty()
    } else if list.len() == 1 {
        list[0]
    } else {
        list[0] + seq![' '] + spaced(list.drop_first())
    }
}

/// A text with one space between its words and none around them.
pub open spec fn collapsed(s: Seq<char>) -> Seq<char> {
    spaced(words(s))
}

fn space_words(list: &Vec<&[char]>) -> (r: Vec<char>)
    ensures
        r@ == spaced(texts(list@)),
{
    let ghost all = texts(list@);
    let mut r: Vec<char> = Vec::new();
    assert(all.skip(0) =~= all);
    for i in 0..list.len()
        invariant
            all == texts(list@),
            i == 0 ==> r@.len() == 0,
            i > 0 && i < list@.len() ==> spaced(all) =~= r@ + seq![' '] + spaced(all.skip(i as int)),
            i > 0 && i == list@.len() ==> spaced(all) =~= r@,
    {
        let ghost before = r@;
        assert(all.skip(i as int)[0] == list@[i as int]@);
        assert(all.skip(i as int).drop_first() =~= all.skip(i + 1));
        if i > 0 {
            r.push(' ');
        }
        let ghost head = r@;
        let word = list[i];
        for k in 0..word.len()
            invariant
                r@ =~= head + word@.take(k as int),
        {
            r.push(word[k]);
        }
        assert(word@.take(word@.len() as int) =~= word@);
        assert(r@ =~= head + word@);
    }
    if list.len() == 0 {
        assert(spaced(all) =~= r@);
    }
    r
}

/// A text with one space between its words and none around them.
pub fn collapse_whitespace(input: &str) -> (r: String)
    ensures
        r@ == collapsed(input@),
{
    let chars = chars_of(input);
    let list = split_words(chars.as_slice());
    let r = space_words(&list);
    string_of(r.as_slice())
}

// ---------------------------------------------------------------------------
// Names
// ---------------------------------------------------------------------------

/// A name with the maker before it, unless it says who the maker is.
pub open spec fn prefixed(maker: Maker, name: Seq<char>) -> Seq<char> {
    if maker.is_named_in(lower(collapsed(name))) {
        collapsed(name)
    } else {
        maker.prefix() + collapsed(name)
    }
}

/// A name with the maker before it, unless it says who the maker is.
pub fn with_prefix(maker: Maker, name: &str) -> (r: String)
    ensures
        r@ == prefixed(maker, name@),
{
    let normalized = collapse_whitespace(name);
    let chars = chars_of(normalized.as_str());
    let lowered = to_lower(chars.as_slice());
    if maker.named_in(lowered.as_slice()) {
        normalized
    } else {
        let mut r = maker.prefix_text();
        r.append(normalized.as_str());
        r
    }
}

/// What stands in the first square brackets that begin with `start`, where that is something.
pub open spec fn bracketed(input: Seq<char>, start: Seq<char>) -> Option<Seq<char>> {
    match find_text(input, "["@ + start) {
        Some(i) => {
            let rest = input.skip(i + 1);
            let end = find_char(rest, ']');
            if end < rest.len() {
                some_text(rest.take(end))
            } else {
                None
            }
        },
        None => None,
    }
}

/// What stands in the first square brackets that begin with `start`.
pub fn extract_bracketed_name(input: &str, start: &str) -> (r: Option<String>)
    ensures
        opt_view(r) == bracketed(input@, start@),
{
    let chars = chars_of(input);
    let mut needle = copy_str("[");
    needle.append(start);
    let needle_chars = chars_of(needle.as_str());
    proof {
        reveal_strlit("[");
    }
    match position_of_text(chars.as_slice(), needle_chars.as_slice()) {
        Some(i) => {
            let count = chars.len();
            let rest = slice_subrange(chars.as_slice(), i + 1, count);
            assert(rest@ =~= input@.skip(i + 1));
            let end = position_of(rest, ']');
            if end == rest.len() {
                return None;
            }
            let inside = slice_subrange(rest, 0, end);
            assert(inside@ =~= rest@.take(end as int));
            text_if_any(inside)
        },
        None => None,
    }
}

fn text_if_any(s: &[char]) -> (r: Option<String>)
    ensures
        opt_view(r) == some_text(s@),
{
    let t = trimmed(s);
    if t.len() > 0 {
        Some(string_of(t))
    } else {
        None
    }
}

// ---------------------------------------------------------------------------
// Texts of the system
// ---------------------------------------------------------------------------

/// The value of a key, out of lines of keys and values: the first that is not empty.
pub open spec fn field_in(list: Seq<Seq<char>>, key: Seq<char>) -> Option<Seq<char>>
    decreases list.len(),
{
    if list.len() == 0 {
        None
    } else {
        either(
            match cut(list[0], '=') {
                Some((field, value)) => if field == key {
                    some_text(value)
                } else {
                    None
                },
                None => None,
            },
            field_in(list.drop_first(), key),
        )
    }
}

/// The value of a key, out of lines of keys and values.
pub fn parse_uevent_field(text: &str, key: &str) -> (r: Option<String>)
    ensures
        opt_view(r) == field_in(lines(text@), key@),
{
    let chars = chars_of(text);
    let list = split_lines(chars.as_slice());
    let wanted = chars_of(key);
    let ghost all = texts(list@);
    assert(all.skip(0) =~= all);
    for i in 0..list.len()
        invariant
            all == texts(list@),
            all == lines(text@),
            wanted@ == key@,
            field_in(all, key@) == field_in(all.skip(i as int), key@),
    {
        assert(all.skip(i as int)[0] == list@[i as int]@);
        assert(all.skip(i as int).drop_first() =~= all.skip(i + 1));
        if let Some((field, value)) = split_once(list[i], '=') {
            if same_text(field, wanted.as_slice()) {
                let found = text_if_any(value);
                if found.is_some() {
                    return found;
                }
            }
        }
    }
    None
}

/// What the list of devices says of the device that it lists first: the text after the first
/// colon and space, without the revision.
pub open spec fn description_in(text: Seq<char>) -> Option<Seq<char>> {
    if lines(text).len() == 0 {
        None
    } else {
        let line = trim(lines(text)[0]);
        match find_text(line, ": "@) {
            Some(i) => {
                let rest = line.skip(i + 2);
                some_text(
                    match find_text(rest, " (rev "@) {
                        Some(k) => rest.take(k),
                        None => rest,
                    },
                )
            },
            None => None,
        }
    }
}

/// What the list of devices says of the device that it lists first.
pub fn parse_description(text: &str) -> (r: Option<String>)
    ensures
        opt_view(r) == description_in(text@),
{
    let chars = chars_of(text);
    let list = split_lines(chars.as_slice());
    if list.len() == 0 {
        assert(texts(list@).len() == 0);
        return None;
    }
    assert(texts(list@)[0] == list@[0]@);
    let line = trimmed(list[0]);
    let colon = chars_of(": ");
    proof {
        reveal_strlit(": ");
    }
    match position_of_text(line, colon.as_slice()) {
        Some(i) => {
            let count = line.len();
            let rest = slice_subrange(line, i + 2, count);
            assert(rest@ =~= line@.skip(i + 2));
            let revision = chars_of(" (rev ");
            match position_of_text(rest, revision.as_slice()) {
                Some(k) => {
                    let head = slice_subrange(rest, 0, k);
                    assert(head@ =~= rest@.take(k as int));
                    text_if_any(head)
                },
                None => text_if_any(rest),
            }
        },
        None => None,
    }
}

/// The name of a card, out of its description.
pub open spec fn described(maker: Maker, description: Seq<char>) -> Seq<char> {
    match maker {
        Maker::Amd => match bracketed(description, "Radeon"@) {
            Some(name) => "AMD "@ + name,
            None => prefixed(maker, description),
        },
        Maker::Intel => prefixed(maker, description),
    }
}

/// The name of a card, out of what the list of devices says of it.
pub open spec fn listed_name(maker: Maker, text: Seq<char>) -> Option<Seq<char>> {
    match description_in(text) {
        Some(description) => Some(described(maker, description)),
        None => None,
    }
}

/// The name of a card, out of what the list of devices says of it.
pub fn read_pci_name_with_lspci(maker: Maker, text: &str) -> (r: Option<String>)
    ensures
        opt_view(r) == listed_name(maker, text@),
{
    match parse_description(text) {
        Some(description) => {
            if maker == Maker::Amd {
                if let Some(name) = extract_bracketed_name(description.as_str(), "Radeon") {
                    let mut r = copy_str("AMD ");
                    r.append(name.as_str());
                    return Some(r);
                }
            }
            Some(with_prefix(maker, description.as_str()))
        },
        None => None,
    }
}

/// The number of a maker or a device, in lower case and without the mark of a hexadecimal
/// number.
pub open spec fn hex_id(text: Seq<char>) -> Option<Seq<char>> {
    let id = trim(without_one(trim(text), "0x"@));
    if id.len() > 0 {
        Some(lower(id))
    } else {
        None
    }
}

/// The number of a maker or a device.
pub fn read_pci_hex_id(text: &str) -> (r: Option<String>)
    ensures
        opt_view(r) == hex_id(text@),
{
    let chars = chars_of(text);
    let raw = trimmed(chars.as_slice());
    let mark = chars_of("0x");
    let id: &[char] = if begins_with(raw, mark.as_slice()) {
        slice_subrange(raw, mark.len(), raw.len())
    } else {
        raw
    };
    assert(id@ =~= without_one(trim(text@), "0x"@));
    let t = trimmed(id);
    if t.len() > 0 {
        Some(lower_string(t))
    } else {
        None
    }
}

// ---------------------------------------------------------------------------
// The register of known devices
// ---------------------------------------------------------------------------

/// The number of bytes that a character takes.
pub open spec fn char_bytes(c: char) -> nat {
    let n = c as u32;
    if n < 0x80 {
        1
    } else if n < 0x800 {
        2
    } else if n < 0x1_0000 {
        3
    } else {
        4
    }
}

/// The number of bytes that a text takes.
pub open spec fn text_bytes(s: Seq<char>) -> nat
    decreases s.len(),
{
    if s.len() == 0 {
        0
    } else {
        char_bytes(s[0]) + text_bytes(s.drop_first())
    }
}

/// What is left of a text without its first `count` bytes, where a character ends there.
pub open spec fn after_bytes(s: Seq<char>, count: nat) -> Option<Seq<char>>
    decreases s.len(),
{
    if count == 0 {
        Some(s)
    } else if s.len() == 0 || char_bytes(s[0]) > count {
        None
    } else {
        after_bytes(s.drop_first(), (count - char_bytes(s[0])) as nat)
    }
}

fn bytes_of_char(c: char) -> (r: usize)
    ensures
        r == char_bytes(c),
{
    let n = c as u32;
    if n < 0x80 {
        1
    } else if n < 0x800 {
        2
    } else if n < 0x1_0000 {
        3
    } else {
        4
    }
}

/// The number of bytes that a text takes.
fn bytes_of_text(s: &[char]) -> (r: u128)
    ensures
        r == text_bytes(s@),
{
    let mut r: u128 = 0;
    let mut i: usize = s.len();
    assert(s@.skip(i as int).len() == 0);
    while i > 0
        invariant
            i <= s@.len(),
            s@.len() <= usize::MAX,
            r == text_bytes(s@.skip(i as int)),
            r <= 4 * (s@.len() - i),
        decreases i,
    {
        i = i - 1;
        assert(s@.skip(i as int).drop_first() =~= s@.skip(i + 1));
        r = r + bytes_of_char(s[i]) as u128;
    }
    assert(s@.skip(0) =~= s@);
    r
}

/// What is left of `s` without its first `count` bytes, where a character ends there.
fn skip_bytes(s: &[char], count: u128) -> (r: Option<&[char]>)
    ensures
        match r {
            Some(rest) => after_bytes(s@, count as nat) == Some(rest@),
            None => after_bytes(s@, count as nat) is None,
        },
{
    let mut owed: u128 = count;
    let mut k: usize = 0;
    assert(s@.skip(0) =~= s@);
    while owed > 0
        invariant
            k <= s@.len(),
            after_bytes(s@, count as nat) == after_bytes(s@.skip(k as int), owed as nat),
        decreases s@.len() - k,
    {
        if k == s.len() {
            return None;
        }
        let width: u128 = bytes_of_char(s[k]) as u128;
        if width > owed {
            return None;
        }
        assert(s@.skip(k as int).drop_first() =~= s@.skip(k + 1));
        owed = owed - width;
        k = k + 1;
    }
    let rest = slice_subrange(s, k, s.len());
    assert(rest@ =~= s@.skip(k as int));
    Some(rest)
}

/// A text without the tabs before it.
pub open spec fn without_tabs(s: Seq<char>) -> Seq<char>
    decreases s.len(),
{
    if s.len() > 0 && s[0] == '\t' {
        without_tabs(s.drop_first())
    } else {
        s
    }
}

/// The name of a device out of the lines of the register. Lines of makers stand at the margin,
/// those of their devices after one tab, and what follows two tabs is passed over. `in_block`
/// says whether the lines before are those of the maker.
pub open spec fn registered(
    list: Seq<Seq<char>>,
    in_block: bool,
    vendor: Seq<char>,
    device: Seq<char>,
) -> Option<Seq<char>>
    decreases list.len(),
{
    if list.len() == 0 {
        None
    } else {
        let line = list[0];
        let rest = list.drop_first();
        let entry = without_tabs(line);
        if line.len() == 0 || line[0] == '#' {
            registered(rest, in_block, vendor, device)
        } else if line[0] != '\t' {
            if words(line).len() == 0 {
                registered(rest, in_block, vendor, device)
            } else {
                registered(rest, lower(words(line)[0]) == lower(vendor), vendor, device)
            }
        } else if !in_block || (line.len() > 1 && line[1] == '\t') || words(entry).len() == 0
            || lower(words(entry)[0]) != lower(device) {
            registered(rest, in_block, vendor, device)
        } else {
            match after_bytes(entry, text_bytes(words(entry)[0])) {
                Some(name) => if trim(name).len() == 0 {
                    registered(rest, in_block, vendor, device)
                } else {
                    Some(trim(name))
                },
                None => None,
            }
        }
    }
}

fn strip_tabs(s: &[char]) -> (r: &[char])
    ensures
        r@ == without_tabs(s@),
{
    let mut i: usize = 0;
    assert(s@.skip(0) =~= s@);
    while i < s.len() && s[i] == '\t'
        invariant
            i <= s@.len(),
            without_tabs(s@) == without_tabs(s@.skip(i as int)),
        decreases s@.len() - i,
    {
        assert(s@.skip(i as int).drop_first() =~= s@.skip(i + 1));
        i = i + 1;
    }
    let r = slice_subrange(s, i, s.len());
    assert(r@ =~= s@.skip(i as int));
    r
}

/// The name of a device out of the register.
pub fn read_pci_name_from_ids_file(text: &str, vendor_id: &str, device_id: &str) -> (r: Option<String>)
    ensures
        opt_view(r) == registered(lines(text@), false, vendor_id@, device_id@),
{
    let chars = chars_of(text);
    let list = split_lines(chars.as_slice());
    let vendor = chars_of(vendor_id);
    let device = chars_of(device_id);
    let ghost all = texts(list@);
    let mut in_block = false;
    assert(all.skip(0) =~= all);
    for i in 0..list.len()
        invariant
            all == texts(list@),
            all == lines(text@),
            vendor@ == vendor_id@,
            device@ == device_id@,
            registered(all, false, vendor_id@, device_id@) == registered(
                all.skip(i as int),
                in_block,
                vendor_id@,
                device_id@,
            ),
    {
        assert(all.skip(i as int)[0] == list@[i as int]@);
        assert(all.skip(i as int).drop_first() =~= all.skip(i + 1));
        let line = list[i];
        if line.len() == 0 || line[0] == '#' {
        } else if line[0] != '\t' {
            let found = split_words(line);
            assert(texts(found@).len() == found@.len());
            if found.len() > 0 {
                assert(texts(found@)[0] == found@[0]@);
                in_block = same_ignoring_case(found[0], vendor.as_slice());
            }
        } else if in_block && !(line.len() > 1 && line[1] == '\t') {
            let entry = strip_tabs(line);
            let found = split_words(entry);
            assert(texts(found@).len() == found@.len());
            if found.len() > 0 {
                assert(texts(found@)[0] == found@[0]@);
                if same_ignoring_case(found[0], device.as_slice()) {
                    match skip_bytes(entry, bytes_of_text(found[0])) {
                        Some(name) => {
                            let t = trimmed(name);
                            if t.len() > 0 {
                                return Some(string_of(t));
                            }
                        },
                        None => {
                            return None;
                        },
                    }
                }
            }
        }
    }
    None
}

// ---------------------------------------------------------------------------
// The search for a name
// ---------------------------------------------------------------------------

/// What the system gives for a card, where it gives it: files of the card, what the list of
/// devices says of it, and the two registers; and what its directory is called.
pub struct CardFacts {
    pub product: Option<Seq<char>>,
    pub uevent: Option<Seq<char>>,
    pub listing: Option<Seq<char>>,
    pub vendor: Option<Seq<char>>,
    pub device: Option<Seq<char>>,
    pub first_register: Option<Seq<char>>,
    pub second_register: Option<Seq<char>>,
    pub label: Option<Seq<char>>,
    pub card: Seq<char>,
}

/// The name that the card's own file gives.
pub open spec fn product_name(maker: Maker, product: Option<Seq<char>>) -> Option<Seq<char>> {
    match product {
        Some(text) => match some_text(text) {
            Some(name) => Some(prefixed(maker, name)),
            None => None,
        },
        None => None,
    }
}

/// The place of the card on the bus.
pub open spec fn slot_in(uevent: Option<Seq<char>>) -> Option<Seq<char>> {
    match uevent {
        Some(text) => field_in(lines(trim(text)), "PCI_SLOT_NAME"@),
        None => None,
    }
}

/// The name that the list of devices gives.
pub open spec fn slot_name(maker: Maker, listing: Option<Seq<char>>) -> Option<Seq<char>> {
    match listing {
        Some(text) => listed_name(maker, text),
        None => None,
    }
}

/// A number out of a file of the card.
pub open spec fn id_in(text: Option<Seq<char>>) -> Option<Seq<char>> {
    match text {
        Some(text) => hex_id(text),
        None => None,
    }
}

/// The name that a register gives.
pub open spec fn register_name(maker: Maker, register: Option<Seq<char>>, vendor: Seq<char>, device: Seq<char>) -> Option<
    Seq<char>,
> {
    match register {
        Some(text) => match registered(lines(text), false, vendor, device) {
            Some(name) => Some(prefixed(maker, name)),
            None => None,
        },
        None => None,
    }
}

/// The name of last resort: the place on the bus, or the directory of the card.
pub open spec fn plain_name(maker: Maker, slot: Option<Seq<char>>, label: Option<Seq<char>>, card: Seq<char>) -> Seq<char> {
    maker.prefix() + (match slot {
        Some(slot) => slot,
        None => match label {
            Some(label) => label,
            None => card,
        },
    })
}

/// What a card is called.
pub open spec fn card_name(maker: Maker, facts: CardFacts) -> Seq<char> {
    let slot = slot_in(facts.uevent);
    let by_slot = match slot {
        Some(_) => slot_name(maker, facts.listing),
        None => None,
    };
    let by_ids = match (id_in(facts.vendor), id_in(facts.device)) {
        (Some(vendor), Some(device)) => either(
            register_name(maker, facts.first_register, vendor, device),
            register_name(maker, facts.second_register, vendor, device),
        ),
        _ => None,
    };
    match either(product_name(maker, facts.product), either(by_slot, by_ids)) {
        Some(name) => name,
        None => plain_name(maker, slot, facts.label, facts.card),
    }
}

/// How far the search for a name has come: what is to be looked at next, and what was found
/// that is still of use.
#[derive(Debug)]
pub enum NameSearch {
    /// The file with the name of the product.
    Product,
    /// The file that tells the place on the bus.
    Uevent,
    /// What the list of devices says of the place.
    Listing { slot: String },
    /// The file with the number of the maker.
    Vendor { slot: Option<String> },
    /// The file with the number of the device.
    Device { slot: Option<String>, vendor: String },
    /// The first register.
    FirstRegister { slot: Option<String>, vendor: String, device: String },
    /// The second register.
    SecondRegister { slot: Option<String>, vendor: String, device: String },
    /// Nothing: the name is found.
    Found { name: String },
}

/// What a search has found.
pub enum SearchView {
    Product,
    Uevent,
    Listing { slot: Seq<char> },
    Vendor { slot: Option<Seq<char>> },
    Device { slot: Option<Seq<char>>, vendor: Seq<char> },
    FirstRegister { slot: Option<Seq<char>>, vendor: Seq<char>, device: Seq<char> },
    SecondRegister { slot: Option<Seq<char>>, vendor: Seq<char>, device: Seq<char> },
    Found { name: Seq<char> },
}

impl View for NameSearch {
    type V = SearchView;

    open spec fn view(&self) -> SearchView {
        match *self {
            NameSearch::Product => SearchView::Product,
            NameSearch::Uevent => SearchView::Uevent,
            NameSearch::Listing { slot } => SearchView::Listing { slot: slot@ },
            NameSearch::Vendor { slot } => SearchView::Vendor { slot: opt_view(slot) },
            NameSearch::Device { slot, vendor } => SearchView::Device {
                slot: opt_view(slot),
                vendor: vendor@,
            },
            NameSearch::FirstRegister { slot, vendor, device } => SearchView::FirstRegister {
                slot: opt_view(slot),
                vendor: vendor@,
                device: device@,
            },
            NameSearch::SecondRegister { slot, vendor, device } => SearchView::SecondRegister {
                slot: opt_view(slot),
                vendor: vendor@,
                device: device@,
            },
            NameSearch::Found { name } => SearchView::Found { name: name@ },
        }
    }
}

/// The search once a name is found or not.
pub open spec fn found_or(name: Option<Seq<char>>, next: SearchView) -> SearchView {
    match name {
        Some(name) => SearchView::Found { name },
        None => next,
    }
}

/// The search after one more answer: the text that was asked for, where there is one.
pub open spec fn search_step(
    maker: Maker,
    search: SearchView,
    reply: Option<Seq<char>>,
    label: Option<Seq<char>>,
    card: Seq<char>,
) -> SearchView {
    match search {
        SearchView::Product => found_or(product_name(maker, reply), SearchView::Uevent),
        SearchView::Uevent => match slot_in(reply) {
            Some(slot) => SearchView::Listing { slot },
            None => SearchView::Vendor { slot: None },
        },
        SearchView::Listing { slot } => found_or(
            slot_name(maker, reply),
            SearchView::Vendor { slot: Some(slot) },
        ),
        SearchView::Vendor { slot } => match id_in(reply) {
            Some(vendor) => SearchView::Device { slot, vendor },
            None => SearchView::Found { name: plain_name(maker, slot, label, card) },
        },
        SearchView::Device { slot, vendor } => match id_in(reply) {
            Some(device) => SearchView::FirstRegister { slot, vendor, device },
            None => SearchView::Found { name: plain_name(maker, slot, label, card) },
        },
        SearchView::FirstRegister { slot, vendor, device } => found_or(
            register_name(maker, reply, vendor, device),
            SearchView::SecondRegister { slot, vendor, device },
        ),
        SearchView::SecondRegister { slot, vendor, device } => found_or(
            register_name(maker, reply, vendor, device),
            SearchView::Found { name: plain_name(maker, slot, label, card) },
        ),
        SearchView::Found { name } => SearchView::Found { name },
    }
}

/// The number of answers that a search takes at most.
pub open spec fn steps_left(search: SearchView) -> nat {
    match search {
        SearchView::Product => 7,
        SearchView::Uevent => 6,
        SearchView::Listing { .. } => 5,
        SearchView::Vendor { .. } => 4,
        SearchView::Device { .. } => 3,
        SearchView::FirstRegister { .. } => 2,
        SearchView::SecondRegister { .. } => 1,
        SearchView::Found { .. } => 0,
    }
}

/// What is answered to a search, out of what the system gives for a card.
pub open spec fn answer(search: SearchView, facts: CardFacts) -> Option<Seq<char>> {
    match search {
        SearchView::Product => facts.product,
        SearchView::Uevent => facts.uevent,
        SearchView::Listing { .. } => facts.listing,
        SearchView::Vendor { .. } => facts.vendor,
        SearchView::Device { .. } => facts.device,
        SearchView::FirstRegister { .. } => facts.first_register,
        SearchView::SecondRegister { .. } => facts.second_register,
        SearchView::Found { .. } => None,
    }
}

/// The name that a search comes to.
pub open spec fn search_result(maker: Maker, search: SearchView, facts: CardFacts) -> Seq<char>
    decreases steps_left(search),
{
    match search {
        SearchView::Found { name } => name,
        _ => search_result(
            maker,
            search_step(maker, search, answer(search, facts), facts.label, facts.card),
            facts,
        ),
    }
}

fn plain_name_text(maker: Maker, slot: Option<String>, label: Option<&str>, card: &str) -> (r: NameSearch)
    ensures
        r@ == (SearchView::Found { name: plain_name(maker, opt_view(slot), str_view(label), card@) }),
{
    let mut name = maker.prefix_text();
    match slot {
        Some(slot) => {
            name.append(slot.as_str());
        },
        None => match label {
            Some(label) => {
                name.append(label);
            },
            None => {
                name.append(card);
            },
        },
    }
    NameSearch::Found { name }
}

fn product_text(maker: Maker, reply: Option<&str>) -> (r: Option<String>)
    ensures
        opt_view(r) == product_name(maker, str_view(reply)),
{
    match reply {
        Some(text) => {
            let chars = chars_of(text);
            match text_if_any(chars.as_slice()) {
                Some(name) => Some(with_prefix(maker, name.as_str())),
                None => None,
            }
        },
        None => None,
    }
}

fn slot_text(reply: Option<&str>) -> (r: Option<String>)
    ensures
        opt_view(r) == slot_in(str_view(reply)),
{
    match reply {
        Some(text) => {
            let chars = chars_of(text);
            let trimmed_text = string_of(trimmed(chars.as_slice()));
            parse_uevent_field(trimmed_text.as_str(), "PCI_SLOT_NAME")
        },
        None => None,
    }
}

fn id_text(reply: Option<&str>) -> (r: Option<String>)
    ensures
        opt_view(r) == id_in(str_view(reply)),
{
    match reply {
        Some(text) => read_pci_hex_id(text),
        None => None,
    }
}

fn register_text(maker: Maker, reply: Option<&str>, vendor: &str, device: &str) -> (r: Option<String>)
    ensures
        opt_view(r) == register_name(maker, str_view(reply), vendor@, device@),
{
    match reply {
        Some(text) => match read_pci_name_from_ids_file(text, vendor, device) {
            Some(name) => Some(with_prefix(maker, name.as_str())),
            None => None,
        },
        None => None,
    }
}

impl NameSearch {
    /// The search after one more answer: the text that was asked for, where there is one. The
    /// label is the name of the card's directory, where that is text.
    pub fn next(self, maker: Maker, reply: Option<&str>, label: Option<&str>, card: &str) -> (r: NameSearch)
        ensures
            r@ == search_step(maker, self@, str_view(reply), str_view(label), card@),
            self@ is Found || steps_left(r@) < steps_left(self@),
    {
        match self {
            NameSearch::Product => match product_text(maker, reply) {
                Some(name) => NameSearch::Found { name },
                None => NameSearch::Uevent,
            },
            NameSearch::Uevent => match slot_text(reply) {
                Some(slot) => NameSearch::Listing { slot },
                None => NameSearch::Vendor { slot: None },
            },
            NameSearch::Listing { slot } => {
                let named = match reply {
                    Some(text) => read_pci_name_with_lspci(maker, text),
                    None => None,
                };
                match named {
                    Some(name) => NameSearch::Found { name },
                    None => NameSearch::Vendor { slot: Some(slot) },
                }
            },
            NameSearch::Vendor { slot } => match id_text(reply) {
                Some(vendor) => NameSearch::Device { slot, vendor },
                None => plain_name_text(maker, slot, label, card),
            },
            NameSearch::Device { slot, vendor } => match id_text(reply) {
                Some(device) => NameSearch::FirstRegister { slot, vendor, device },
                None => plain_name_text(maker, slot, label, card),
            },
            NameSearch::FirstRegister { slot, vendor, device } => {
                match register_text(maker, reply, vendor.as_str(), device.as_str()) {
                    Some(name) => NameSearch::Found { name },
                    None => NameSearch::SecondRegister { slot, vendor, device },
                }
            },
            NameSearch::SecondRegister { slot, vendor, device } => {
                match register_text(maker, reply, vendor.as_str(), device.as_str()) {
                    Some(name) => NameSearch::Found { name },
                    None => plain_name_text(maker, slot, label, card),
                }
            },
            NameSearch::Found { name } => NameSearch::Found { name },
        }
    }
}

// ---------------------------------------------------------------------------
// Laws
// ---------------------------------------------------------------------------

/// A search that is answered out of what the system gives for a card comes to what the card
/// is called.
pub proof fn law_search_finds_name(maker: Maker, facts: CardFacts)
    ensures
        search_result(maker, SearchView::Product, facts) == card_name(maker, facts),
{
    reveal_with_fuel(search_result, 8);
}

/// Whether a text is a word: not empty, and without white space.
pub open spec fn is_word(w: Seq<char>) -> bool {
    w.len() > 0 && forall|i: int| 0 <= i < w.len() ==> !is_white(#[trigger] w[i])
}

/// Whether all texts are words.
pub open spec fn all_words(list: Seq<Seq<char>>) -> bool {
    forall|i: int| 0 <= i < list.len() ==> is_word(#[trigger] list[i])
}

proof fn lemma_word_len_is(w: Seq<char>, rest: Seq<char>)
    requires
        forall|i: int| 0 <= i < w.len() ==> !is_white(#[trigger] w[i]),
        rest.len() == 0 || is_white(rest[0]),
    ensures
        crate::split::word_len(w + rest) == w.len(),
    decreases w.len(),
{
    if w.len() == 0 {
        assert(w + rest =~= rest);
    } else {
        assert(!is_white(w[0]));
        assert((w + rest).drop_first() =~= w.drop_first() + rest);
        assert forall|i: int| 0 <= i < w.drop_first().len() implies !is_white(#[trigger] w.drop_first()[i]) by {
            assert(!is_white(w[i + 1]));
        }
        lemma_word_len_is(w.drop_first(), rest);
    }
}

proof fn lemma_word_chars(s: Seq<char>)
    ensures
        forall|i: int| 0 <= i < crate::split::word_len(s) ==> !is_white(#[trigger] s[i]),
    decreases s.len(),
{
    if s.len() > 0 && !is_white(s[0]) {
        lemma_word_chars(s.drop_first());
        crate::split::lemma_word_len(s.drop_first());
        assert forall|i: int| 0 <= i < crate::split::word_len(s) implies !is_white(#[trigger] s[i]) by {
            if i > 0 {
                assert(!is_white(s.drop_first()[i - 1]));
            }
        }
    }
}

/// The words of a text are words.
proof fn lemma_words_are_words(s: Seq<char>)
    ensures
        all_words(words(s)),
    decreases s.len(),
{
    let t = strip_start(s, Strip::White);
    crate::split::lemma_strip_start(s, Strip::White);
    if t.len() > 0 {
        let n = crate::split::word_len(t);
        crate::split::lemma_word_len(t);
        lemma_word_chars(t);
        lemma_words_are_words(t.skip(n));
        let first = t.take(n);
        assert forall|i: int| 0 <= i < first.len() implies !is_white(#[trigger] first[i]) by {
            assert(!is_white(t[i]));
        }
        assert(is_word(first));
        let rest = words(t.skip(n));
        assert forall|i: int| 0 <= i < words(s).len() implies is_word(#[trigger] words(s)[i]) by {
            if i > 0 {
                assert(words(s)[i] == rest[i - 1]);
            }
        }
    }
}

proof fn lemma_words_after_space(s: Seq<char>)
    ensures
        words(seq![' '] + s) == words(s),
{
    let spaced_text = seq![' '] + s;
    assert(spaced_text[0] == ' ');
    assert(is_white(' '));
    assert(spaced_text.drop_first() =~= s);
    assert(strip_start(spaced_text, Strip::White) == strip_start(s, Strip::White));
}

/// The words of words with spaces between them are these words.
proof fn lemma_words_of_spaced(list: Seq<Seq<char>>)
    requires
        all_words(list),
    ensures
        words(spaced(list)) == list,
    decreases list.len(),
{
    if list.len() == 0 {
        assert(strip_start(spaced(list), Strip::White).len() == 0);
        assert(words(spaced(list)) =~= list);
    } else {
        let w = list[0];
        assert(is_word(w));
        assert(!is_white(w[0]));
        let rest_list = list.drop_first();
        assert forall|i: int| 0 <= i < rest_list.len() implies is_word(#[trigger] rest_list[i]) by {
            assert(is_word(list[i + 1]));
        }
        let rest = if list.len() == 1 {
            Seq::<char>::empty()
        } else {
            seq![' '] + spaced(rest_list)
        };
        let s = w + rest;
        assert(spaced(list) =~= s);
        assert(s[0] == w[0]);
        assert(strip_start(s, Strip::White) == s);
        lemma_word_len_is(w, rest);
        assert(s.take(w.len() as int) =~= w);
        assert(s.skip(w.len() as int) =~= rest);
        if list.len() > 1 {
            lemma_words_after_space(spaced(rest_list));
            lemma_words_of_spaced(rest_list);
        } else {
            assert(strip_start(rest, Strip::White).len() == 0);
            assert(words(rest) =~= rest_list);
        }
        assert(words(s) =~= seq![w] + rest_list);
        assert(seq![w] + rest_list =~= list);
    }
}

/// Collapsing white space a second time changes nothing.
pub proof fn law_collapse_twice(s: Seq<char>)
    ensures
        collapsed(collapsed(s)) == collapsed(s),
{
    lemma_words_are_words(s);
    lemma_words_of_spaced(words(s));
}

proof fn lemma_lower_add(a: Seq<char>, b: Seq<char>)
    ensures
        lower(a + b) == lower(a) + lower(b),
{
    assert(lower(a + b) =~= lower(a) + lower(b));
}

/// A name that has the maker before it is not given the maker again, wherever there is a name
/// at all.
pub proof fn law_prefix_twice(maker: Maker, name: Seq<char>)
    requires
        words(name).len() > 0,
    ensures
        prefixed(maker, prefixed(maker, name)) == prefixed(maker, name),
{
    law_collapse_twice(name);
    let list = words(name);
    lemma_words_are_words(name);
    if !maker.is_named_in(lower(collapsed(name))) {
        let brand = match maker {
            Maker::Amd => "AMD"@,
            Maker::Intel => "Intel"@,
        };
        reveal_strlit("AMD");
        reveal_strlit("Intel");
        reveal_strlit("AMD ");
        reveal_strlit("Intel ");
        reveal_strlit("amd ");
        reveal_strlit("intel ");
        assert(maker.prefix() =~= brand + seq![' ']);
        assert(is_word(brand));
        let longer = seq![brand] + list;
        assert(longer.drop_first() =~= list);
        assert forall|i: int| 0 <= i < longer.len() implies is_word(#[trigger] longer[i]) by {
            if i > 0 {
                assert(longer[i] == list[i - 1]);
            }
        }
        let full = maker.prefix() + collapsed(name);
        assert(spaced(longer) =~= full);
        lemma_words_of_spaced(longer);
        assert(collapsed(full) == full);
        lemma_lower_add(maker.prefix(), collapsed(name));
        let start = match maker {
            Maker::Amd => "amd "@,
            Maker::Intel => "intel "@,
        };
        assert(lower(maker.prefix()) =~= start);
        assert(lower(full).take(start.len() as int) =~= start);
        assert(maker.is_named_in(lower(full)));
    }
}

/// Collapsing white space keeps the words and puts one space between each two of them.
pub proof fn law_collapse_keeps_words(s: Seq<char>)
    ensures
        words(collapsed(s)) == words(s),
        collapsed(s) == joined_by(words(s), ' '),
{
    lemma_words_are_words(s);
    lemma_words_of_spaced(words(s));
    lemma_spaced_is_joined(words(s));
}

proof fn lemma_spaced_is_joined(list: Seq<Seq<char>>)
    ensures
        spaced(list) == joined_by(list, ' '),
    decreases list.len(),
{
    if list.len() > 1 {
        lemma_spaced_is_joined(list.drop_first());
        assert(list[0] + seq![' '] =~= list[0].push(' '));
    }
}

/// A name gets the maker before it where it does not say who the maker is, and is else only
/// collapsed.
pub proof fn law_maker_before_name(name: Seq<char>)
    ensures
        prefixed(Maker::Amd, name) == collapsed(name) || prefixed(Maker::Amd, name) == "AMD "@ + collapsed(name),
        prefixed(Maker::Intel, name) == collapsed(name) || prefixed(Maker::Intel, name) == "Intel "@ + collapsed(name),
        Maker::Amd.is_named_in(lower(collapsed(name))) ==> prefixed(Maker::Amd, name) == collapsed(name),
        Maker::Intel.is_named_in(lower(collapsed(name))) ==> prefixed(Maker::Intel, name) == collapsed(name),
        !Maker::Amd.is_named_in(lower(collapsed(name))) ==> prefixed(Maker::Amd, name) == "AMD "@ + collapsed(name),
        !Maker::Intel.is_named_in(lower(collapsed(name))) ==> prefixed(Maker::Intel, name) == "Intel "@ + collapsed(
            name,
        ),
{
}

/// What stands in the first brackets that begin as asked is found, up to the bracket that closes
/// them and without the white space around it; where there are none, nothing is.
pub proof fn law_first_brackets(before: Seq<char>, start: Seq<char>, inside: Seq<char>, after: Seq<char>)
    requires
        !start.contains(']'),
        !inside.contains(']'),
        forall|i: int|
            0 <= i < before.len() ==> !#[trigger] stands_at(
                before + ("["@ + start) + inside + "]"@ + after,
                "["@ + start,
                i,
            ),
    ensures
        trim(start + inside).len() > 0 ==> bracketed(before + ("["@ + start) + inside + "]"@ + after, start) == Some(
            trim(start + inside),
        ),
        trim(start + inside).len() == 0 ==> bracketed(before + ("["@ + start) + inside + "]"@ + after, start) is None,
        bracketed(before + ("["@ + start) + inside, start) is None || exists|i: int|
            0 <= i < before.len() && stands_at(before + ("["@ + start) + inside, "["@ + start, i),
        (forall|i: int| !#[trigger] stands_at(before, "["@ + start, i)) ==> bracketed(before, start) is None,
{
    reveal_strlit("[");
    reveal_strlit("]");
    let needle = "["@ + start;
    let s = before + needle + inside + "]"@ + after;
    let n = before.len() as int;
    assert(s.subrange(n, n + needle.len()) =~= needle);
    assert(stands_at(s, needle, n));
    law_first_occurrence(s, needle);
    assert(find_text(s, needle) == Some(n));
    let rest = s.skip(n + 1);
    let both = start + inside;
    assert(rest =~= both.push(']') + after);
    lemma_no_bracket(start, inside);
    law_cut_at_first(both, ']', after);
    law_first_char(rest, ']');
    lemma_first_char_is(both, ']', after);
    assert(rest.take(both.len() as int) =~= both);
    law_first_occurrence(before, needle);
    let t = before + needle + inside;
    law_first_occurrence(t, needle);
    assert(t.subrange(n, n + needle.len()) =~= needle);
    assert(stands_at(t, needle, n));
    if find_text(t, needle) == Some(n) {
        let end = t.skip(n + 1);
        assert(end =~= both);
        law_first_char(end, ']');
    } else {
        let i = find_text(t, needle)->0;
        assert(stands_at(t, needle, i));
    }
}

proof fn lemma_no_bracket(a: Seq<char>, b: Seq<char>)
    requires
        !a.contains(']'),
        !b.contains(']'),
    ensures
        !(a + b).contains(']'),
{
    let s = a + b;
    if s.contains(']') {
        let i = choose|i: int| 0 <= i < s.len() && s[i] == ']';
        if i < a.len() {
            assert(a[i] == ']');
        } else {
            assert(b[i - a.len()] == ']');
        }
    }
}

/// A character that a text does not hold is found right behind it.
proof fn lemma_first_char_is(a: Seq<char>, c: char, b: Seq<char>)
    requires
        !a.contains(c),
    ensures
        find_char(a.push(c) + b, c) == a.len(),
{
    let s = a.push(c) + b;
    law_first_char(s, c);
    let i = find_char(s, c);
    assert(s[a.len() as int] == c);
    if i < a.len() {
        assert(a[i] == c);
    }
}

/// Whether a line gives a key a value that is not blank.
pub open spec fn line_gives(line: Seq<char>, key: Seq<char>) -> bool {
    cut(line, '=') matches Some((field, value)) && field == key && trim(value).len() > 0
}

/// The value of a key is that of the first line that gives it one which is not blank, whatever
/// the other lines hold; without such a line there is none.
pub proof fn law_first_value_counts(list: Seq<Seq<char>>, key: Seq<char>, i: int, value: Seq<char>)
    requires
        0 <= i <= list.len(),
        !key.contains('='),
        forall|j: int| 0 <= j < i ==> !line_gives(#[trigger] list[j], key),
    ensures
        i < list.len() && list[i] == key.push('=') + value && trim(value).len() > 0 ==> field_in(list, key) == Some(
            trim(value),
        ),
        i == list.len() ==> field_in(list, key) is None,
    decreases list.len(),
{
    if i > 0 {
        assert(!line_gives(list[0], key));
        let rest = list.drop_first();
        assert forall|j: int| 0 <= j < i - 1 implies !line_gives(#[trigger] rest[j], key) by {
            assert(rest[j] == list[j + 1]);
        }
        law_first_value_counts(rest, key, i - 1, value);
    } else if i < list.len() && list[i] == key.push('=') + value {
        law_cut_at_first(key, '=', value);
    }
}

/// The description of a device is what follows the first colon and space on the first line, up to
/// its revision, and without the white space around it.
pub proof fn law_description_of_device(text: Seq<char>, place: Seq<char>, about: Seq<char>, revision: Seq<char>)
    requires
        lines(text).len() > 0,
        forall|i: int| 0 <= i < place.len() ==> !#[trigger] stands_at(trim(lines(text)[0]), ": "@, i),
        trim(about).len() > 0,
    ensures
        trim(lines(text)[0]) == place + ": "@ + about && (forall|i: int| !#[trigger] stands_at(about, " (rev "@, i))
            ==> description_in(text) == Some(trim(about)),
        trim(lines(text)[0]) == place + ": "@ + (about + " (rev "@ + revision) && (forall|i: int|
            0 <= i < about.len() ==> !#[trigger] stands_at(about + " (rev "@ + revision, " (rev "@, i))
            ==> description_in(text) == Some(trim(about)),
        (forall|i: int| !#[trigger] stands_at(trim(lines(text)[0]), ": "@, i)) ==> description_in(text) is None,
{
    reveal_strlit(": ");
    reveal_strlit(" (rev ");
    let line = trim(lines(text)[0]);
    let colon = ": "@;
    let mark = " (rev "@;
    law_first_occurrence(line, colon);
    let n = place.len() as int;
    if line == place + colon + about {
        assert(line.subrange(n, n + 2) =~= colon);
        assert(stands_at(line, colon, n));
        assert(line.skip(n + 2) =~= about);
        law_first_occurrence(about, mark);
    }
    let long = about + mark + revision;
    if line == place + colon + long {
        assert(line.subrange(n, n + 2) =~= colon);
        assert(stands_at(line, colon, n));
        assert(line.skip(n + 2) =~= long);
        law_first_occurrence(long, mark);
        let k = about.len() as int;
        assert(long.subrange(k, k + mark.len()) =~= mark);
        assert(stands_at(long, mark, k));
        assert(long.take(k) =~= about);
    }
}

/// No lines have no description.
pub proof fn law_no_device_no_description(text: Seq<char>, maker: Maker)
    ensures
        lines(text).len() == 0 ==> description_in(text) is None,
        description_in(text) is None ==> listed_name(maker, text) is None,
        description_in(text) is Some ==> listed_name(maker, text) is Some,
{
}

/// A card of one maker is called by the brackets of its description, where these name its
/// series; all others by the whole description.
pub proof fn law_series_in_brackets(text: Seq<char>)
    requires
        description_in(text) is Some,
    ensures
        ({
            let about = description_in(text)->0;
            &&& bracketed(about, "Radeon"@) is Some ==> listed_name(Maker::Amd, text) == Some(
                "AMD "@ + bracketed(about, "Radeon"@)->0,
            )
            &&& bracketed(about, "Radeon"@) is None ==> listed_name(Maker::Amd, text) == Some(prefixed(Maker::Amd, about))
            &&& listed_name(Maker::Intel, text) == Some(prefixed(Maker::Intel, about))
        }),
{
}

/// A number is read with or without the mark of a hexadecimal number, in lower case; a blank one
/// is none.
pub proof fn law_hexadecimal_mark(text: Seq<char>, id: Seq<char>)
    ensures
        trim(text) == "0x"@ + id && trim(id).len() > 0 ==> hex_id(text) == Some(lower(trim(id))),
        !starts_with(trim(text), "0x"@) && trim(trim(text)).len() > 0 ==> hex_id(text) == Some(lower(trim(trim(text)))),
        trim(text).len() == 0 ==> hex_id(text) is None,
        trim(text) == "0x"@ + id && trim(id).len() == 0 ==> hex_id(text) is None,
{
    reveal_strlit("0x");
    law_begins_and_ends("0x"@, id, trim(text));
    assert(("0x"@ + id).skip(2) =~= id);
    if trim(text).len() == 0 {
        law_strip_leaves_middle(trim(text), Strip::White);
    }
}

/// What follows the bytes of the first part of a text is the rest of it, and the bytes of two
/// texts are those of both.
pub proof fn law_bytes_of_texts(a: Seq<char>, b: Seq<char>)
    ensures
        text_bytes(a + b) == text_bytes(a) + text_bytes(b),
        after_bytes(a + b, text_bytes(a)) == Some(b),
        text_bytes(a) == vstd::utf8::encode_utf8(a).len(),
    decreases a.len(),
{
    if a.len() == 0 {
        assert(a + b =~= b);
    } else {
        law_bytes_of_texts(a.drop_first(), b);
        assert((a + b).drop_first() =~= a.drop_first() + b);
        vstd::utf8::char_is_scalar(a[0]);
    }
}

/// Whether a line of the register stands at the margin and names a maker.
pub open spec fn names_some_maker(line: Seq<char>) -> bool {
    line.len() > 0 && line[0] != '#' && line[0] != '\t' && words(line).len() > 0
}

/// Whether a line of the register names this maker, in whatever case.
pub open spec fn names_maker(line: Seq<char>, vendor: Seq<char>) -> bool {
    names_some_maker(line) && lower(words(line)[0]) == lower(vendor)
}

/// Whether line `n` stands among the devices of a maker: the last line before it that names a
/// maker names this one, or none does and the lines before the list were those of the maker.
pub open spec fn among_devices(list: Seq<Seq<char>>, before: bool, vendor: Seq<char>, n: int) -> bool {
    (exists|v: int|
        0 <= v < n && names_maker(#[trigger] list[v], vendor) && forall|j: int|
            v < j < n ==> !names_some_maker(#[trigger] list[j])) || (before && forall|j: int|
        0 <= j < n ==> !names_some_maker(#[trigger] list[j]))
}

/// Whether a line of the register stands behind one tab and names this device, in whatever case.
pub open spec fn names_device(line: Seq<char>, device: Seq<char>) -> bool {
    &&& line.len() > 0
    &&& line[0] == '\t'
    &&& !(line.len() > 1 && line[1] == '\t')
    &&& words(line.skip(1)).len() > 0
    &&& lower(words(line.skip(1))[0]) == lower(device)
}

proof fn lemma_among_rest(list: Seq<Seq<char>>, before: bool, vendor: Seq<char>, n: int)
    requires
        0 < n <= list.len(),
    ensures
        among_devices(list, before, vendor, n) == among_devices(
            list.drop_first(),
            names_maker(list[0], vendor) || (before && !names_some_maker(list[0])),
            vendor,
            n - 1,
        ),
{
    let rest = list.drop_first();
    let next = names_maker(list[0], vendor) || (before && !names_some_maker(list[0]));
    assert(forall|j: int| 0 <= j < n - 1 ==> #[trigger] rest[j] == list[j + 1]);
    assert(forall|j: int| 1 <= j < n ==> #[trigger] list[j] == rest[j - 1]);
    if among_devices(list, before, vendor, n) {
        if exists|v: int|
            0 <= v < n && names_maker(#[trigger] list[v], vendor) && forall|j: int|
                v < j < n ==> !names_some_maker(#[trigger] list[j]) {
            let v = choose|v: int|
                0 <= v < n && names_maker(#[trigger] list[v], vendor) && forall|j: int|
                    v < j < n ==> !names_some_maker(#[trigger] list[j]);
            assert forall|j: int| v - 1 < j < n - 1 && 0 <= j implies !names_some_maker(#[trigger] rest[j]) by {
                assert(!names_some_maker(list[j + 1]));
            }
            if v > 0 {
                assert(names_maker(rest[v - 1], vendor));
            }
        } else {
            assert(!names_some_maker(list[0]));
            assert forall|j: int| 0 <= j < n - 1 implies !names_some_maker(#[trigger] rest[j]) by {
                assert(!names_some_maker(list[j + 1]));
            }
        }
    }
    if among_devices(rest, next, vendor, n - 1) {
        if exists|v: int|
            0 <= v < n - 1 && names_maker(#[trigger] rest[v], vendor) && forall|j: int|
                v < j < n - 1 ==> !names_some_maker(#[trigger] rest[j]) {
            let v = choose|v: int|
                0 <= v < n - 1 && names_maker(#[trigger] rest[v], vendor) && forall|j: int|
                    v < j < n - 1 ==> !names_some_maker(#[trigger] rest[j]);
            assert(names_maker(list[v + 1], vendor));
            assert forall|j: int| v + 1 < j < n implies !names_some_maker(#[trigger] list[j]) by {
                assert(!names_some_maker(rest[j - 1]));
            }
        } else {
            assert forall|j: int| 1 <= j < n implies !names_some_maker(#[trigger] list[j]) by {
                assert(!names_some_maker(rest[j - 1]));
            }
            if names_maker(list[0], vendor) {
                assert(names_maker(list[0], vendor) && forall|j: int|
                    0 < j < n ==> !names_some_maker(#[trigger] list[j]));
            }
        }
    }
}

proof fn lemma_registered(
    list: Seq<Seq<char>>,
    before: bool,
    vendor: Seq<char>,
    device: Seq<char>,
    d: int,
    id: Seq<char>,
    name: Seq<char>,
)
    requires
        0 <= d <= list.len(),
        forall|j: int|
            0 <= j < d ==> !(names_device(#[trigger] list[j], device) && among_devices(list, before, vendor, j)),
    ensures
        d == list.len() ==> registered(list, before, vendor, device) is None,
        d < list.len() && among_devices(list, before, vendor, d) && names_device(list[d], device) && list[d]
            == seq!['\t'] + id + name && words(id + name)[0] == id && trim(name).len() > 0 ==> registered(
            list,
            before,
            vendor,
            device,
        ) == Some(trim(name)),
    decreases list.len(),
{
    if list.len() > 0 {
        let line = list[0];
        let rest = list.drop_first();
        reveal_with_fuel(without_tabs, 2);
        if line.len() > 0 && line[0] == '\t' && !(line.len() > 1 && line[1] == '\t') {
            assert(line.skip(1) =~= line.drop_first());
            assert(without_tabs(line) == line.skip(1));
        }
        assert(among_devices(list, before, vendor, 0) == before);
        if d > 0 {
            let next = names_maker(line, vendor) || (before && !names_some_maker(line));
            assert(!(names_device(list[0], device) && among_devices(list, before, vendor, 0)));
            assert forall|j: int| 0 <= j < d - 1 implies !(names_device(#[trigger] rest[j], device) && among_devices(
                rest,
                next,
                vendor,
                j,
            )) by {
                lemma_among_rest(list, before, vendor, j + 1);
                assert(rest[j] == list[j + 1]);
            }
            lemma_among_rest(list, before, vendor, d);
            lemma_registered(rest, next, vendor, device, d - 1, id, name);
            assert(registered(list, before, vendor, device) == registered(rest, next, vendor, device));
        } else if line == seq!['\t'] + id + name {
            assert(line.skip(1) =~= id + name);
            law_bytes_of_texts(id, name);
        }
    }
}

/// The register gives the name behind the number of the device, on the first line that names the
/// device among those of the maker: lines of other makers, lines behind two tabs and comments do
/// not count.
pub proof fn law_device_of_maker(
    list: Seq<Seq<char>>,
    vendor: Seq<char>,
    device: Seq<char>,
    d: int,
    id: Seq<char>,
    name: Seq<char>,
)
    requires
        0 <= d < list.len(),
        among_devices(list, false, vendor, d),
        names_device(list[d], device),
        forall|j: int|
            0 <= j < d ==> !(names_device(#[trigger] list[j], device) && among_devices(list, false, vendor, j)),
        list[d] == seq!['\t'] + id + name,
        words(id + name)[0] == id,
        trim(name).len() > 0,
    ensures
        registered(list, false, vendor, device) == Some(trim(name)),
{
    lemma_registered(list, false, vendor, device, d, id, name);
}

/// A register with no line that names the device among those of the maker gives no name.
pub proof fn law_unknown_device(list: Seq<Seq<char>>, vendor: Seq<char>, device: Seq<char>)
    requires
        forall|j: int|
            0 <= j < list.len() ==> !(names_device(#[trigger] list[j], device) && among_devices(list, false, vendor, j)),
    ensures
        registered(list, false, vendor, device) is None,
{
    lemma_registered(list, false, vendor, device, list.len() as int, vendor, device);
}

/// A card is called by its own file; without one by the list of devices, where its place is
/// known; then by the first register, the second one, its place, and what its directory is
/// called.
pub proof fn law_order_of_sources(maker: Maker, facts: CardFacts)
    ensures
        ({
            let name = card_name(maker, facts);
            let product = if facts.product is Some {
                trim(facts.product->0)
            } else {
                Seq::empty()
            };
            let slot = if facts.uevent is Some {
                field_in(lines(trim(facts.uevent->0)), "PCI_SLOT_NAME"@)
            } else {
                None
            };
            let listed = if slot is Some && facts.listing is Some {
                listed_name(maker, facts.listing->0)
            } else {
                None
            };
            let numbered = facts.vendor is Some && facts.device is Some && hex_id(facts.vendor->0) is Some && hex_id(
                facts.device->0,
            ) is Some;
            let vendor = hex_id(facts.vendor->0)->0;
            let device = hex_id(facts.device->0)->0;
            let first = if numbered && facts.first_register is Some {
                registered(lines(facts.first_register->0), false, vendor, device)
            } else {
                None
            };
            let second = if numbered && facts.second_register is Some {
                registered(lines(facts.second_register->0), false, vendor, device)
            } else {
                None
            };
            let unlisted = product.len() == 0 && listed is None;
            let unknown = unlisted && first is None && second is None;
            &&& product.len() > 0 ==> name == prefixed(maker, product)
            &&& product.len() == 0 && listed is Some ==> name == listed->0
            &&& unlisted && first is Some ==> name == prefixed(maker, first->0)
            &&& unlisted && first is None && second is Some ==> name == prefixed(maker, second->0)
            &&& unknown && slot is Some ==> name == maker.prefix() + slot->0
            &&& unknown && slot is None && facts.label is Some ==> name == maker.prefix() + facts.label->0
            &&& unknown && slot is None && facts.label is None ==> name == maker.prefix() + facts.card
        }),
{
}

} // verus!

//! Processors: their numbers, which of them share a core, their model and temperature.

use crate::number::{
    decimal, law_decimal_reads_back, lemma_decimal, parse_number, parse_usize, without_plus,
};
use crate::reading::Reading;
use crate::split::{
    cut, fields, joined_by, law_cut_at_first, law_fields_of_joined, split_fields, split_once, texts,
};
use crate::text::{
    chars_of, copy_str, find_text, is_digit, law_first_occurrence, lower, position_of_text,
    stands_at, string_of, to_lower, trim, trimmed,
};
use vstd::prelude::*;
use vstd::slice::slice_subrange;

verus! {

broadcast use vstd::string::group_string_axioms;

// ---------------------------------------------------------------------------
// The number of a processor
// ---------------------------------------------------------------------------

/// The longest run of digits at the end of `s`.
pub open spec fn trailing_digits(s: Seq<char>) -> Seq<char>
    decreases s.len(),
{
    if s.len() > 0 && is_digit(s.last()) {
        trailing_digits(s.drop_last()).push(s.last())
    } else {
        Seq::empty()
    }
}

/// The number at the end of a processor's name, or `fallback` where there is none that fits.
pub open spec fn logical_cpu_id(name: Seq<char>, fallback: usize) -> usize {
    match parse_number(trailing_digits(name), usize::MAX as nat) {
        Some(v) => v as usize,
        None => fallback,
    }
}

proof fn lemma_trailing_digits(s: Seq<char>, n: int)
    requires
        0 <= n <= s.len(),
        forall|j: int| n <= j < s.len() ==> is_digit(#[trigger] s[j]),
        n > 0 ==> !is_digit(s[n - 1]),
    ensures
        trailing_digits(s) == s.skip(n),
    decreases s.len(),
{
    if n < s.len() {
        assert(is_digit(s[s.len() - 1]));
        let t = s.drop_last();
        assert forall|j: int| n <= j < t.len() implies is_digit(#[trigger] t[j]) by {
            assert(is_digit(s[j]));
        }
        lemma_trailing_digits(t, n);
        assert(t.skip(n).push(s.last()) =~= s.skip(n));
    } else {
        assert(s.skip(n) =~= Seq::<char>::empty());
    }
}

/// The number at the end of a processor's name, or `fallback` where there is none that fits.
pub fn parse_logical_cpu_id(name: &str, fallback: usize) -> (r: usize)
    ensures
        r == logical_cpu_id(name@, fallback),
{
    let chars = chars_of(name);
    let mut n: usize = chars.len();
    while n > 0 && '0' <= chars[n - 1] && chars[n - 1] <= '9'
        invariant
            n <= chars@.len(),
            forall|j: int| n <= j < chars@.len() ==> is_digit(#[trigger] chars@[j]),
        decreases n,
    {
        n = n - 1;
    }
    let digits = slice_subrange(chars.as_slice(), n, chars.len());
    proof {
        lemma_trailing_digits(chars@, n as int);
        assert(digits@ =~= chars@.skip(n as int));
    }
    match parse_usize(digits) {
        Some(v) => v,
        None => fallback,
    }
}

// ---------------------------------------------------------------------------
// Lists of processor numbers
// ---------------------------------------------------------------------------

/// The numbers from `a` to `b`, both included.
pub open spec fn span(a: nat, b: nat) -> Seq<usize> {
    if a <= b {
        Seq::new((b - a + 1) as nat, |i: int| (a + i) as usize)
    } else {
        Seq::empty()
    }
}

/// The numbers that one part of a list names: a single number, or all from one end to the
/// other of two numbers with a hyphen between them.
pub open spec fn part_ids(part: Seq<char>) -> Seq<usize> {
    let max = usize::MAX as nat;
    match cut(part, '-') {
        Some((left, right)) => match (parse_number(left, max), parse_number(right, max)) {
            (Some(a), Some(b)) => if a <= b {
                span(a, b)
            } else {
                span(b, a)
            },
            _ => Seq::empty(),
        },
        None => match parse_number(part, max) {
            Some(v) => seq![v as usize],
            None => Seq::empty(),
        },
    }
}

/// The numbers that the parts of a list name, one after the other.
pub open spec fn parts_ids(parts: Seq<Seq<char>>) -> Seq<usize>
    decreases parts.len(),
{
    if parts.len() == 0 {
        Seq::empty()
    } else {
        parts_ids(parts.drop_last()) + part_ids(trim(parts.last()))
    }
}

/// The numbers that a comma-separated list of numbers and ranges names.
pub open spec fn cpu_id_list(raw: Seq<char>) -> Seq<usize> {
    parts_ids(fields(raw, ','))
}

fn push_span(out: &mut Vec<usize>, a: usize, b: usize)
    requires
        a <= b,
    ensures
        final(out)@ == old(out)@ + span(a as nat, b as nat),
{
    let ghost start = out@;
    let mut x: usize = a;
    assert(start + span(a as nat, b as nat).take(0) =~= start);
    loop
        invariant
            a <= x <= b,
            start == old(out)@,
            out@ == start + span(a as nat, b as nat).take(x - a),
        decreases b - x,
    {
        out.push(x);
        assert(out@ =~= start + span(a as nat, b as nat).take(x - a + 1));
        if x == b {
            assert(span(a as nat, b as nat).take(b - a + 1) =~= span(a as nat, b as nat));
            return;
        }
        x = x + 1;
    }
}

fn push_part(out: &mut Vec<usize>, part: &[char])
    ensures
        final(out)@ == old(out)@ + part_ids(part@),
{
    let ghost start = out@;
    match split_once(part, '-') {
        Some((left, right)) => {
            if let Some(a) = parse_usize(left) {
                if let Some(b) = parse_usize(right) {
                    if a <= b {
                        push_span(out, a, b);
                    } else {
                        push_span(out, b, a);
                    }
                    return;
                }
            }
            assert(start + part_ids(part@) =~= start);
        },
        None => {
            if let Some(v) = parse_usize(part) {
                out.push(v);
            }
            assert(out@ =~= start + part_ids(part@));
        },
    }
}

proof fn lemma_part_of_nothing()
    ensures
        part_ids(Seq::empty()) == Seq::<usize>::empty(),
{
    reveal_with_fuel(crate::text::find_char, 1);
}

/// The numbers that a comma-separated list of numbers and ranges names; what is neither is
/// passed over.
pub fn parse_cpu_id_list(raw: &str) -> (out: Vec<usize>)
    ensures
        out@ == cpu_id_list(raw@),
{
    let chars = chars_of(raw);
    cpu_ids_in(chars.as_slice())
}

/// The numbers that a comma-separated list of numbers and ranges names.
pub fn cpu_ids_in(raw: &[char]) -> (out: Vec<usize>)
    ensures
        out@ == cpu_id_list(raw@),
{
    let parts = split_fields(raw, ',');
    let ghost all = texts(parts@);
    let mut out: Vec<usize> = Vec::new();
    for i in 0..parts.len()
        invariant
            all == texts(parts@),
            out@ == parts_ids(all.take(i as int)),
    {
        let part = trimmed(parts[i]);
        let ghost start = out@;
        if part.len() > 0 {
            push_part(&mut out, part);
        } else {
            proof {
                assert(part@ =~= Seq::<char>::empty());
                lemma_part_of_nothing();
                assert(start + part_ids(part@) =~= start);
            }
        }
        assert(all.take(i + 1).drop_last() =~= all.take(i as int));
        assert(all.take(i + 1).last() == parts@[i as int]@);
    }
    assert(all.take(all.len() as int) =~= all);
    out
}

// ---------------------------------------------------------------------------
// The model
// ---------------------------------------------------------------------------

/// The first processor's brand without the white space around it, or else its name, or else
/// a placeholder.
pub open spec fn cpu_model(first: Option<(Seq<char>, Seq<char>)>) -> Seq<char> {
    match first {
        Some((brand, name)) => if trim(brand).len() > 0 {
            trim(brand)
        } else if trim(name).len() > 0 {
            trim(name)
        } else {
            "Unknown CPU"@
        },
        None => "Unknown CPU"@,
    }
}

/// What is shown as the model of the processor whose brand and name are `first`.
pub fn detect_cpu_model(first: Option<(&str, &str)>) -> (r: String)
    ensures
        r@ == cpu_model(
            match first {
                Some((brand, name)) => Some((brand@, name@)),
                None => None,
            },
        ),
{
    if let Some((brand, name)) = first {
        let brand_chars = chars_of(brand);
        let model = trimmed(brand_chars.as_slice());
        if model.len() > 0 {
            return string_of(model);
        }
        let name_chars = chars_of(name);
        let fallback = trimmed(name_chars.as_slice());
        if fallback.len() > 0 {
            return string_of(fallback);
        }
    }
    copy_str("Unknown CPU")
}

// ---------------------------------------------------------------------------
// The temperature
// ---------------------------------------------------------------------------

/// A temperature sensor and what it measures, where it does.
#[derive(Debug)]
pub struct Sensor {
    pub label: String,
    pub temperature: Option<Reading>,
}

/// The words by which a processor's sensor is known, the best first.
pub open spec fn sensor_words() -> Seq<Seq<char>> {
    seq!["tctl"@, "tdie"@, "package"@, "cpu"@]
}

/// The place of the best word that a label holds, from `from` on.
pub open spec fn word_rank(label: Seq<char>, from: int) -> int
    decreases sensor_words().len() - from,
{
    if from >= sensor_words().len() || find_text(lower(label), sensor_words()[from]) is Some {
        from
    } else {
        word_rank(label, from + 1)
    }
}

/// How good a sensor is, by its label; lower is better.
pub open spec fn sensor_rank(sensor: Sensor) -> int {
    word_rank(sensor.label@, 0)
}

/// Whether the sensor at `i` measures, none that measures is better, and none before it is as
/// good.
pub open spec fn is_best_sensor(sensors: Seq<Sensor>, i: int) -> bool {
    &&& 0 <= i < sensors.len()
    &&& sensors[i].temperature is Some
    &&& forall|j: int|
        0 <= j < sensors.len() && (#[trigger] sensors[j]).temperature is Some ==> sensor_rank(
            sensors[i],
        ) < sensor_rank(sensors[j]) || (sensor_rank(sensors[i]) == sensor_rank(sensors[j]) && i <= j)
}

/// Whether `r` is what the best sensor measures, or nothing where none measures.
pub open spec fn is_cpu_temp(sensors: Seq<Sensor>, r: Option<Reading>) -> bool {
    match r {
        Some(t) => exists|i: int|
            #[trigger] is_best_sensor(sensors, i) && sensors[i].temperature == Some(t),
        None => forall|i: int| 0 <= i < sensors.len() ==> (#[trigger] sensors[i]).temperature is None,
    }
}

fn holds_word(label: &[char], word: &str) -> (r: bool)
    ensures
        r == (find_text(label@, word@) is Some),
{
    let w = chars_of(word);
    position_of_text(label, w.as_slice()).is_some()
}

fn rank_of_sensor(sensor: &Sensor) -> (r: usize)
    ensures
        r == sensor_rank(*sensor),
{
    let chars = chars_of(sensor.label.as_str());
    let label = to_lower(chars.as_slice());
    proof {
        reveal_with_fuel(word_rank, 5);
    }
    if holds_word(label.as_slice(), "tctl") {
        0
    } else if holds_word(label.as_slice(), "tdie") {
        1
    } else if holds_word(label.as_slice(), "package") {
        2
    } else if holds_word(label.as_slice(), "cpu") {
        3
    } else {
        4
    }
}

/// The temperature of the best sensor that measures, the first of those that are equally good.
pub fn pick_cpu_temp(sensors: &Vec<Sensor>) -> (r: Option<Reading>)
    ensures
        is_cpu_temp(sensors@, r),
{
    let mut best: Option<(usize, Reading)> = None;
    let ghost mut at: int = 0;
    for i in 0..sensors.len()
        invariant
            match best {
                Some((rank, t)) => is_best_sensor(sensors@.take(i as int), at) && rank
                    == sensor_rank(sensors@[at]) && sensors@[at].temperature == Some(t),
                None => forall|j: int| 0 <= j < i ==> (#[trigger] sensors@[j]).temperature is None,
            },
    {
        let ghost upto = sensors@.take(i as int);
        let ghost next = sensors@.take(i + 1);
        assert(forall|j: int| 0 <= j < i ==> #[trigger] next[j] == upto[j]);
        assert(next[i as int] == sensors@[i as int]);
        if let Some(temp) = sensors[i].temperature {
            let rank = rank_of_sensor(&sensors[i]);
            let replace = match best {
                None => true,
                Some((best_rank, _)) => rank < best_rank,
            };
            if replace {
                best = Some((rank, temp));
                proof {
                    if upto.len() > 0 && 0 <= at < i {
                        assert(next[at] == upto[at]);
                    }
                    let old_at = at;
                    at = i as int;
                    assert forall|j: int|
                        0 <= j < next.len() && (#[trigger] next[j]).temperature is Some implies sensor_rank(
                        next[at],
                    ) < sensor_rank(next[j]) || (sensor_rank(next[at]) == sensor_rank(next[j]) && at
                        <= j) by {
                        if j < i {
                            assert(upto[j].temperature is Some);
                            assert(sensors@[j].temperature is Some);
                        }
                    }
                }
            } else {
                assert(is_best_sensor(next, at));
            }
        } else {
            assert(best is Some ==> is_best_sensor(next, at));
        }
    }
    assert(sensors@.take(sensors@.len() as int) =~= sensors@);
    match best {
        Some((_, t)) => {
            assert(is_best_sensor(sensors@, at));
            Some(t)
        },
        None => None,
    }
}

// ---------------------------------------------------------------------------
// Laws
// ---------------------------------------------------------------------------

/// The number of a processor is the one that its name ends with, whatever stands before it;
/// without one, or with one that is too large, it is the one that was proposed.
pub proof fn law_number_at_end(before: Seq<char>, n: nat, fallback: usize)
    requires
        before.len() > 0 ==> !is_digit(before.last()),
    ensures
        n <= usize::MAX ==> logical_cpu_id(before + decimal(n), fallback) == n,
        n > usize::MAX ==> logical_cpu_id(before + decimal(n), fallback) == fallback,
        logical_cpu_id(before, fallback) == fallback,
{
    let digits = decimal(n);
    let name = before + digits;
    let k = before.len() as int;
    lemma_decimal(n);
    assert forall|j: int| k <= j < name.len() implies is_digit(#[trigger] name[j]) by {
        assert(name[j] == digits[j - k]);
    }
    lemma_trailing_digits(name, k);
    assert(name.skip(k) =~= digits);
    if n <= usize::MAX {
        law_decimal_reads_back(n, usize::MAX as nat);
    } else {
        assert(without_plus(digits) == digits);
    }
}

/// A number names itself, and two numbers with a hyphen between them name all from the lesser to
/// the greater, in order, whichever stands first.
pub proof fn law_numbers_and_ranges(a: nat, b: nat)
    requires
        a <= usize::MAX,
        b <= usize::MAX,
    ensures
        part_ids(decimal(a)) == seq![a as usize],
        ({
            let ids = part_ids(decimal(a).push('-') + decimal(b));
            let first = if a <= b {
                a
            } else {
                b
            };
            let last = if a <= b {
                b
            } else {
                a
            };
            &&& ids.len() == last - first + 1
            &&& forall|i: int| 0 <= i < ids.len() ==> #[trigger] ids[i] == first + i
        }),
{
    lemma_decimal(a);
    lemma_decimal(b);
    assert(!decimal(a).contains('-')) by {
        if decimal(a).contains('-') {
            let i = choose|i: int| 0 <= i < decimal(a).len() && decimal(a)[i] == '-';
            assert(is_digit(decimal(a)[i]));
        }
    }
    law_cut_at_first(decimal(a), '-', decimal(b));
    law_decimal_reads_back(a, usize::MAX as nat);
    law_decimal_reads_back(b, usize::MAX as nat);
}

/// What is no number, and a range one of whose ends is none, names nothing.
pub proof fn law_no_numbers(part: Seq<char>, left: Seq<char>, right: Seq<char>)
    requires
        !part.contains('-'),
        !left.contains('-'),
    ensures
        parse_number(part, usize::MAX as nat) is None ==> part_ids(part).len() == 0,
        parse_number(left, usize::MAX as nat) is None || parse_number(right, usize::MAX as nat) is None ==> part_ids(
            left.push('-') + right,
        ).len() == 0,
{
    law_cut_at_first(part, '-', right);
    law_cut_at_first(left, '-', right);
}

/// A list with commas between its parts names what its parts name, one after the other, the
/// white space around a part left out.
pub proof fn law_list_names_all(parts: Seq<Seq<char>>, part: Seq<char>)
    requires
        forall|k: int| 0 <= k < parts.len() ==> !(#[trigger] parts[k]).contains(','),
        !part.contains(','),
    ensures
        cpu_id_list(part) == part_ids(trim(part)),
        parts.len() > 0 ==> cpu_id_list(joined_by(parts.push(part), ',')) == cpu_id_list(joined_by(parts, ','))
            + part_ids(trim(part)),
{
    let longer = parts.push(part);
    assert forall|k: int| 0 <= k < longer.len() implies !(#[trigger] longer[k]).contains(',') by {
        if k < parts.len() {
            assert(longer[k] == parts[k]);
        }
    }
    law_fields_of_joined(longer, ',');
    law_fields_of_joined(seq![part], ',');
    assert(joined_by(seq![part], ',') == part);
    assert(seq![part].drop_last() =~= Seq::<Seq<char>>::empty());
    assert(parts_ids(seq![part]) =~= part_ids(trim(part))) by {
        reveal_with_fuel(parts_ids, 2);
    }
    if parts.len() > 0 {
        law_fields_of_joined(parts, ',');
        assert(longer.drop_last() =~= parts);
    }
}

/// The model is the brand; where that is blank, the name; where both are, or there is no
/// processor, a placeholder.
pub proof fn law_brand_before_name(brand: Seq<char>, name: Seq<char>)
    ensures
        trim(brand).len() > 0 ==> cpu_model(Some((brand, name))) == trim(brand),
        trim(brand).len() == 0 && trim(name).len() > 0 ==> cpu_model(Some((brand, name))) == trim(name),
        trim(brand).len() == 0 && trim(name).len() == 0 ==> cpu_model(Some((brand, name))) == "Unknown CPU"@,
        cpu_model(None) == "Unknown CPU"@,
{
}

/// Whether a label holds a word, in whatever case.
pub open spec fn label_holds(label: Seq<char>, word: Seq<char>) -> bool {
    exists|i: int| stands_at(lower(label), word, i)
}

/// A label with the control temperature is better than one with that of the die, that better than
/// one of the package, that better than another one of the processor, and that better than one
/// without any of these words.
pub proof fn law_words_of_sensors(sensor: Sensor)
    ensures
        ({
            let label = sensor.label@;
            let rank = sensor_rank(sensor);
            &&& label_holds(label, "tctl"@) <==> rank == 0
            &&& !label_holds(label, "tctl"@) && label_holds(label, "tdie"@) <==> rank == 1
            &&& !label_holds(label, "tctl"@) && !label_holds(label, "tdie"@) && label_holds(label, "package"@)
                <==> rank == 2
            &&& !label_holds(label, "tctl"@) && !label_holds(label, "tdie"@) && !label_holds(label, "package"@)
                && label_holds(label, "cpu"@) <==> rank == 3
            &&& !label_holds(label, "tctl"@) && !label_holds(label, "tdie"@) && !label_holds(label, "package"@)
                && !label_holds(label, "cpu"@) <==> rank == 4
        }),
{
    reveal_with_fuel(word_rank, 5);
    let label = lower(sensor.label@);
    law_first_occurrence(label, "tctl"@);
    law_first_occurrence(label, "tdie"@);
    law_first_occurrence(label, "package"@);
    law_first_occurrence(label, "cpu"@);
}

/// Whether the temperature is that of sensor `i`, and sensor `j` is not better.
pub open spec fn takes_before(sensors: Seq<Sensor>, temp: Option<Reading>, i: int, j: int) -> bool {
    &&& 0 <= i < sensors.len()
    &&& sensors[i].temperature == temp
    &&& sensor_rank(sensors[i]) <= sensor_rank(sensors[j])
    &&& sensor_rank(sensors[i]) == sensor_rank(sensors[j]) ==> i <= j
}

/// The temperature is that of a sensor that measures, none that measures is better, and none as
/// good comes before it; without a sensor that measures there is none.
pub proof fn law_best_sensor_counts(sensors: Seq<Sensor>, temp: Option<Reading>, j: int)
    requires
        is_cpu_temp(sensors, temp),
    ensures
        0 <= j < sensors.len() && sensors[j].temperature is Some ==> temp is Some && exists|i: int|
            takes_before(sensors, temp, i, j),
        (forall|i: int| 0 <= i < sensors.len() ==> (#[trigger] sensors[i]).temperature is None) ==> temp is None,
{
    if temp is Some {
        let i = choose|i: int| #[trigger] is_best_sensor(sensors, i) && sensors[i].temperature == temp;
        if 0 <= j < sensors.len() && sensors[j].temperature is Some {
            assert(takes_before(sensors, temp, i, j));
        }
    }
}

} // verus!

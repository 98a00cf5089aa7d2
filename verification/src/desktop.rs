//! Names of applications: desktop entries, and which of them a process belongs to.

use crate::split::{
    base_name, base_of_path, fields, file_name, is_name, law_last_field, law_last_name, lines,
    name_in_path, split_fields, split_lines, split_words, texts, words,
};
use crate::text::{
    begins_with_str, chars_of, copy_str, find_char, find_text, holds_char, is_middle,
    law_begins_and_ends, law_first_occurrence, law_strip_takes_ends, lower, lower_string,
    position_of_text, same_ignoring_case, same_str, stands_at, starts_with, string_of, strip_both,
    stripped, trim, trimmed, Strip,
};
use vstd::prelude::*;
use vstd::slice::slice_subrange;

verus! {

broadcast use vstd::string::group_string_axioms;

// ---------------------------------------------------------------------------
// Prefixes and suffixes
// ---------------------------------------------------------------------------

/// `s` without `p` at its start, however often it stands there.
pub open spec fn without_start(s: Seq<char>, p: Seq<char>) -> Seq<char>
    decreases s.len(),
{
    if p.len() > 0 && starts_with(s, p) {
        without_start(s.skip(p.len() as int), p)
    } else {
        s
    }
}

/// `s` without `p` at its end, however often it stands there.
pub open spec fn without_end(s: Seq<char>, p: Seq<char>) -> Seq<char>
    decreases s.len(),
{
    if p.len() > 0 && crate::text::ends_with(s, p) {
        without_end(s.take(s.len() - p.len()), p)
    } else {
        s
    }
}

fn strip_prefixes<'a>(s: &'a [char], p: &str) -> (r: &'a [char])
    ensures
        r@ == without_start(s@, p@),
{
    let prefix = chars_of(p);
    let mut rest: &[char] = s;
    while prefix.len() > 0 && crate::text::begins_with(rest, prefix.as_slice())
        invariant
            prefix@ == p@,
            without_start(rest@, p@) == without_start(s@, p@),
        decreases rest@.len(),
    {
        let next = slice_subrange(rest, prefix.len(), rest.len());
        assert(next@ =~= rest@.skip(p@.len() as int));
        rest = next;
    }
    rest
}

fn strip_suffixes<'a>(s: &'a [char], p: &str) -> (r: &'a [char])
    ensures
        r@ == without_end(s@, p@),
{
    let suffix = chars_of(p);
    let mut rest: &[char] = s;
    while suffix.len() > 0 && finishes_with(rest, suffix.as_slice())
        invariant
            suffix@ == p@,
            without_end(rest@, p@) == without_end(s@, p@),
        decreases rest@.len(),
    {
        let next = slice_subrange(rest, 0, rest.len() - suffix.len());
        assert(next@ =~= rest@.take(rest@.len() - p@.len()));
        rest = next;
    }
    rest
}

/// Whether the text ends with `p`.
fn finishes_with(s: &[char], p: &[char]) -> (r: bool)
    ensures
        r == crate::text::ends_with(s@, p@),
{
    if p.len() > s.len() {
        return false;
    }
    let tail = slice_subrange(s, s.len() - p.len(), s.len());
    assert(tail@ =~= s@.skip(s@.len() - p@.len()));
    crate::text::same_text(tail, p)
}

// ---------------------------------------------------------------------------
// Desktop entries
// ---------------------------------------------------------------------------

/// What was found of a desktop entry so far.
pub struct EntryView {
    pub in_entry: bool,
    pub name: Option<Seq<char>>,
    pub command: Option<Seq<char>>,
}

/// The value that a line gives to a key, where it is not empty.
pub open spec fn value_of(line: Seq<char>, key: Seq<char>) -> Option<Seq<char>> {
    let value = trim(without_start(line, key));
    if value.len() > 0 {
        Some(value)
    } else {
        None
    }
}

/// What is found after one more line: headings say whether the lines that follow belong to
/// the desktop entry, and in it the first name and the first command count.
pub open spec fn entry_step(found: EntryView, raw: Seq<char>) -> EntryView {
    let line = trim(raw);
    if line.len() == 0 || line[0] == '#' {
        found
    } else if line[0] == '[' && line.last() == ']' {
        EntryView { in_entry: lower(line) == lower("[Desktop Entry]"@), ..found }
    } else if !found.in_entry {
        found
    } else if found.name is None && starts_with(line, "Name="@) {
        EntryView { name: value_of(line, "Name="@), ..found }
    } else if found.command is None && starts_with(line, "Exec="@) {
        EntryView { command: value_of(line, "Exec="@), ..found }
    } else {
        found
    }
}

/// What is found in lines.
pub open spec fn entry_in(list: Seq<Seq<char>>) -> EntryView
    decreases list.len(),
{
    if list.len() == 0 {
        EntryView { in_entry: false, name: None, command: None }
    } else {
        entry_step(entry_in(list.drop_last()), list.last())
    }
}

/// The name and the command of a desktop file; none where it has no name.
pub open spec fn desktop_entry(text: Seq<char>) -> Option<(Seq<char>, Option<Seq<char>>)> {
    let found = entry_in(lines(text));
    match found.name {
        Some(name) => Some((name, found.command)),
        None => None,
    }
}

/// What is found of a text, or nothing.
pub open spec fn opt_view(s: Option<String>) -> Option<Seq<char>> {
    match s {
        Some(s) => Some(s@),
        None => None,
    }
}

fn value_in(line: &[char], key: &str) -> (r: Option<String>)
    ensures
        opt_view(r) == value_of(line@, key@),
{
    let value = trimmed(strip_prefixes(line, key));
    if value.len() > 0 {
        Some(string_of(value))
    } else {
        None
    }
}

/// The name and the command of a desktop file; none where it has no name.
pub fn parse_desktop_file(text: &str) -> (r: Option<(String, Option<String>)>)
    ensures
        match r {
            Some((name, command)) => desktop_entry(text@) == Some((name@, opt_view(command))),
            None => desktop_entry(text@) is None,
        },
{
    let chars = chars_of(text);
    let list = split_lines(chars.as_slice());
    let heading = chars_of("[Desktop Entry]");
    let ghost all = texts(list@);
    let mut in_entry = false;
    let mut name: Option<String> = None;
    let mut command: Option<String> = None;
    for i in 0..list.len()
        invariant
            all == texts(list@),
            heading@ == "[Desktop Entry]"@,
            entry_in(all.take(i as int)) == (EntryView {
                in_entry,
                name: opt_view(name),
                command: opt_view(command),
            }),
    {
        proof {
            assert(all.take(i + 1).drop_last() =~= all.take(i as int));
            assert(all.take(i + 1).last() == list@[i as int]@);
        }
        let line = trimmed(list[i]);
        if line.len() == 0 || line[0] == '#' {
        } else if line[0] == '[' && line[line.len() - 1] == ']' {
            in_entry = same_ignoring_case(line, heading.as_slice());
        } else if !in_entry {
        } else if name.is_none() && begins_with_str(line, "Name=") {
            name = value_in(line, "Name=");
        } else if command.is_none() && begins_with_str(line, "Exec=") {
            command = value_in(line, "Exec=");
        }
    }
    assert(all.take(all.len() as int) =~= all);
    match name {
        Some(name) => Some((name, command)),
        None => None,
    }
}

// ---------------------------------------------------------------------------
// Keys
// ---------------------------------------------------------------------------

/// A name as it is looked up: without white space around it and without directories, in
/// lower case.
pub open spec fn lookup_key(raw: Seq<char>) -> Seq<char> {
    lower(base_name(trim(raw)))
}

/// The name of a desktop file as it is looked up: also without its extension.
pub open spec fn desktop_key(raw: Seq<char>) -> Seq<char> {
    lower(base_name(without_end(trim(raw), ".desktop"@)))
}

/// A name as it is looked up.
pub fn normalize_lookup_key(raw: &str) -> (r: String)
    ensures
        r@ == lookup_key(raw@),
{
    let chars = chars_of(raw);
    lower_string(base_of_path(trimmed(chars.as_slice())))
}

/// The name of a desktop file as it is looked up.
pub fn normalize_desktop_id(raw: &str) -> (r: String)
    ensures
        r@ == desktop_key(raw@),
{
    let chars = chars_of(raw);
    lower_string(base_of_path(strip_suffixes(trimmed(chars.as_slice()), ".desktop")))
}

/// The program that one word of a command names, where it names one: not `env`, no
/// assignment, no placeholder.
pub open spec fn program_in(word: Seq<char>) -> Option<Seq<char>> {
    let command = strip_both(word, Strip::Quote);
    let base = trim(base_name(command));
    if word == "env"@ {
        None
    } else if word.contains('=') && !word.contains('/') {
        None
    } else if command.len() == 0 || command[0] == '%' || base.len() == 0 {
        None
    } else {
        Some(lookup_key(base))
    }
}

/// The first program that the words of a command name.
pub open spec fn first_program(list: Seq<Seq<char>>) -> Option<Seq<char>>
    decreases list.len(),
{
    if list.len() == 0 {
        None
    } else {
        match program_in(list[0]) {
            Some(program) => Some(program),
            None => first_program(list.drop_first()),
        }
    }
}

fn program_of(word: &[char]) -> (r: Option<String>)
    ensures
        opt_view(r) == program_in(word@),
{
    let env = chars_of("env");
    if crate::text::same_text(word, env.as_slice()) {
        return None;
    }
    if holds_char(word, '=') && !holds_char(word, '/') {
        return None;
    }
    let command = stripped(word, Strip::Quote);
    if command.len() == 0 || command[0] == '%' {
        return None;
    }
    let base = trimmed(base_of_path(command));
    if base.len() == 0 {
        return None;
    }
    Some(normalize_lookup_key(string_of(base).as_str()))
}

/// The program that a command runs.
pub fn extract_exec_basename(command: &str) -> (r: Option<String>)
    ensures
        opt_view(r) == first_program(words(command@)),
{
    let chars = chars_of(command);
    let list = split_words(chars.as_slice());
    let ghost all = texts(list@);
    assert(all.skip(0) =~= all);
    for i in 0..list.len()
        invariant
            all == texts(list@),
            first_program(all) == first_program(all.skip(i as int)),
            all == words(command@),
    {
        assert(all.skip(i as int)[0] == list@[i as int]@);
        let program = program_of(list[i]);
        if program.is_some() {
            return program;
        }
        assert(all.skip(i as int).drop_first() =~= all.skip(i + 1));
    }
    None
}

/// `s` without one `p` at its start.
pub open spec fn without_one(s: Seq<char>, p: Seq<char>) -> Seq<char> {
    if starts_with(s, p) {
        s.skip(p.len() as int)
    } else {
        s
    }
}

/// The name of the desktop file that a word of a command line holds.
pub open spec fn desktop_id_in(raw: Seq<char>) -> Option<Seq<char>> {
    let token = without_one(strip_both(raw, Strip::Quote), "application://"@);
    let tail = fields(token, '/').last();
    match find_text(tail, ".desktop"@) {
        Some(end) => if find_text(raw, ".desktop"@) is Some && end > 0 {
            Some(tail.take(end))
        } else {
            None
        },
        None => None,
    }
}

proof fn lemma_fields_some(s: Seq<char>, sep: char)
    ensures
        fields(s, sep).len() > 0,
{
    let i = find_char(s, sep);
    if 0 <= i < s.len() {
        assert(fields(s, sep) == seq![s.take(i)] + fields(s.skip(i + 1), sep));
    }
}

/// The name of the desktop file that a word of a command line holds.
pub fn extract_desktop_id_candidate(raw: &str) -> (r: Option<String>)
    ensures
        opt_view(r) == desktop_id_in(raw@),
{
    let chars = chars_of(raw);
    let needle = chars_of(".desktop");
    if position_of_text(chars.as_slice(), needle.as_slice()).is_none() {
        return None;
    }
    let quoted = stripped(chars.as_slice(), Strip::Quote);
    let scheme = chars_of("application://");
    let token: &[char] = if crate::text::begins_with(quoted, scheme.as_slice()) {
        slice_subrange(quoted, scheme.len(), quoted.len())
    } else {
        quoted
    };
    assert(token@ =~= without_one(strip_both(raw@, Strip::Quote), "application://"@));
    let parts = split_fields(token, '/');
    proof {
        lemma_fields_some(token@, '/');
        assert(texts(parts@).last() == parts@[parts@.len() - 1]@);
    }
    let tail = parts[parts.len() - 1];
    match position_of_text(tail, needle.as_slice()) {
        Some(end) => {
            if end > 0 {
                let id = slice_subrange(tail, 0, end);
                assert(id@ =~= tail@.take(end as int));
                Some(string_of(id))
            } else {
                None
            }
        },
        None => None,
    }
}

// ---------------------------------------------------------------------------
// Applications by key
// ---------------------------------------------------------------------------

/// A name under a key.
#[derive(Debug)]
pub struct Named {
    pub key: String,
    pub name: String,
}

/// The name that stands first under a key.
pub open spec fn name_under(list: Seq<Named>, key: Seq<char>) -> Option<Seq<char>>
    decreases list.len(),
{
    if list.len() == 0 {
        None
    } else if list[0].key@ == key {
        Some(list[0].name@)
    } else {
        name_under(list.drop_first(), key)
    }
}

/// The name under a key after `name` was offered for `offered`: what was there first stays.
pub open spec fn name_after(list: Seq<Named>, offered: Seq<char>, name: Seq<char>, key: Seq<char>) -> Option<Seq<char>> {
    match name_under(list, key) {
        Some(known) => Some(known),
        None => if key == offered {
            Some(name)
        } else {
            None
        },
    }
}

proof fn lemma_name_push(list: Seq<Named>, entry: Named, key: Seq<char>)
    ensures
        name_under(list.push(entry), key) == name_after(list, entry.key@, entry.name@, key),
    decreases list.len(),
{
    let longer = list.push(entry);
    if list.len() > 0 {
        assert(longer.drop_first() =~= list.drop_first().push(entry));
        lemma_name_push(list.drop_first(), entry, key);
    } else {
        assert(longer.drop_first() =~= Seq::<Named>::empty());
        reveal_with_fuel(name_under, 2);
    }
}

fn find_name(list: &Vec<Named>, key: &str) -> (r: Option<String>)
    ensures
        opt_view(r) == name_under(list@, key@),
{
    let mut i: usize = 0;
    assert(list@.skip(0) =~= list@);
    while i < list.len()
        invariant
            i <= list@.len(),
            name_under(list@, key@) == name_under(list@.skip(i as int), key@),
        decreases list@.len() - i,
    {
        if same_str(list[i].key.as_str(), key) {
            return Some(list[i].name.clone());
        }
        assert(list@.skip(i as int).drop_first() =~= list@.skip(i + 1));
        i = i + 1;
    }
    None
}

fn offer_name(list: &mut Vec<Named>, key: String, name: &str)
    ensures
        forall|k: Seq<char>| #[trigger]
            name_under(final(list)@, k) == name_after(old(list)@, key@, name@, k),
{
    let ghost start = list@;
    if find_name(list, key.as_str()).is_none() {
        let entry = Named { key, name: copy_str(name) };
        list.push(entry);
        proof {
            assert forall|k: Seq<char>| #[trigger] name_under(list@, k) == name_after(
                start,
                key@,
                name@,
                k,
            ) by {
                lemma_name_push(start, entry, k);
            }
        }
    }
}

/// The applications that desktop files describe, by the program that they run and by the name
/// of the file.
#[derive(Debug)]
pub struct DesktopAppResolver {
    pub by_exec: Vec<Named>,
    pub by_desktop_id: Vec<Named>,
}

/// A desktop file: its name without its extension, where that is text, and its content.
#[derive(Debug)]
pub struct DesktopFile {
    pub stem: Option<String>,
    pub text: String,
}

impl DesktopFile {
    /// The key of the file and the name that it gives, where it gives one.
    pub open spec fn by_stem(self) -> Option<(Seq<char>, Seq<char>)> {
        match (self.stem, desktop_entry(self.text@)) {
            (Some(stem), Some((name, _))) => Some((lookup_key(stem@), name)),
            _ => None,
        }
    }

    /// The program that the file runs and the name that it gives, where it gives one.
    pub open spec fn by_command(self) -> Option<(Seq<char>, Seq<char>)> {
        match (self.stem, desktop_entry(self.text@)) {
            (Some(_), Some((name, command))) => match program_of_command(command) {
                Some(program) => Some((program, name)),
                None => None,
            },
            _ => None,
        }
    }
}

/// The name that the first desktop file with a key gives.
pub open spec fn name_by_file(files: Seq<DesktopFile>, key: Seq<char>) -> Option<Seq<char>>
    decreases files.len(),
{
    if files.len() == 0 {
        None
    } else {
        either(
            name_by_file(files.drop_last(), key),
            match files.last().by_stem() {
                Some((k, name)) => if k == key {
                    Some(name)
                } else {
                    None
                },
                None => None,
            },
        )
    }
}

/// The name that the first desktop file that runs a program gives.
pub open spec fn name_by_program(files: Seq<DesktopFile>, key: Seq<char>) -> Option<Seq<char>>
    decreases files.len(),
{
    if files.len() == 0 {
        None
    } else {
        either(
            name_by_program(files.drop_last(), key),
            match files.last().by_command() {
                Some((k, name)) => if k == key {
                    Some(name)
                } else {
                    None
                },
                None => None,
            },
        )
    }
}

/// What is known of a process: its command line, the name of its program, and its own name.
#[derive(Debug)]
pub struct ProcessInfo {
    pub cmd: Vec<String>,
    pub exe_name: Option<String>,
    pub name: String,
}

/// The first of two that is there.
pub open spec fn either(a: Option<Seq<char>>, b: Option<Seq<char>>) -> Option<Seq<char>> {
    match a {
        Some(x) => Some(x),
        None => b,
    }
}

impl DesktopAppResolver {
    /// The application that runs a program.
    pub open spec fn by_program(self, key: Seq<char>) -> Option<Seq<char>> {
        name_under(self.by_exec@, lookup_key(key))
    }

    /// The application of a desktop file.
    pub open spec fn by_file(self, key: Seq<char>) -> Option<Seq<char>> {
        name_under(self.by_desktop_id@, desktop_key(key))
    }

    /// The application of the first desktop file that a command line names and that is known.
    pub open spec fn by_command_line(self, cmd: Seq<String>) -> Option<Seq<char>>
        decreases cmd.len(),
    {
        if cmd.len() == 0 {
            None
        } else {
            either(
                match desktop_id_in(cmd[0]@) {
                    Some(id) => self.by_file(id),
                    None => None,
                },
                self.by_command_line(cmd.drop_first()),
            )
        }
    }

    /// The application of the program that a command line starts with.
    pub open spec fn by_first_word(self, cmd: Seq<String>) -> Option<Seq<char>> {
        if cmd.len() == 0 {
            None
        } else {
            either(
                match file_name(cmd[0]@) {
                    Some(base) => self.by_program(base),
                    None => None,
                },
                self.by_file(cmd[0]@),
            )
        }
    }

    /// The application of a process: by the desktop file that its command line names, by its
    /// program, by the first word of its command line, or by its name.
    pub open spec fn application(self, process: ProcessInfo) -> Option<Seq<char>> {
        either(
            self.by_command_line(process.cmd@),
            either(
                match process.exe_name {
                    Some(exe) => self.by_program(exe@),
                    None => None,
                },
                either(
                    self.by_first_word(process.cmd@),
                    either(self.by_program(process.name@), self.by_file(process.name@)),
                ),
            ),
        )
    }

    /// No application known.
    pub fn new() -> (r: DesktopAppResolver)
        ensures
            r.by_exec@.len() == 0,
            r.by_desktop_id@.len() == 0,
    {
        DesktopAppResolver { by_exec: Vec::new(), by_desktop_id: Vec::new() }
    }

    /// Takes in a desktop file, given the name of the file without its extension, where that
    /// is text, and its content. What an earlier file described stays.
    pub fn add_file(&mut self, stem: Option<&str>, text: &str)
        ensures
            match (stem, desktop_entry(text@)) {
                (Some(stem), Some((name, command))) => {
                    &&& forall|k: Seq<char>| #[trigger]
                        name_under(final(self).by_desktop_id@, k) == name_after(
                            old(self).by_desktop_id@,
                            lookup_key(stem@),
                            name,
                            k,
                        )
                    &&& forall|k: Seq<char>| #[trigger]
                        name_under(final(self).by_exec@, k) == (match program_of_command(command) {
                            Some(program) => name_after(old(self).by_exec@, program, name, k),
                            None => name_under(old(self).by_exec@, k),
                        })
                },
                _ => *final(self) == *old(self),
            },
    {
        if let Some((name, command)) = parse_desktop_file(text) {
            if let Some(stem) = stem {
                offer_name(&mut self.by_desktop_id, normalize_lookup_key(stem), name.as_str());
                if let Some(command) = command {
                    if let Some(program) = extract_exec_basename(command.as_str()) {
                        offer_name(&mut self.by_exec, program, name.as_str());
                    }
                }
            }
        }
    }

    /// The applications that desktop files describe, the first description of each first.
    pub fn from_system(files: &Vec<DesktopFile>) -> (r: DesktopAppResolver)
        ensures
            forall|k: Seq<char>| #[trigger] name_under(r.by_desktop_id@, k) == name_by_file(files@, k),
            forall|k: Seq<char>| #[trigger] name_under(r.by_exec@, k) == name_by_program(files@, k),
    {
        let mut r = DesktopAppResolver::new();
        for i in 0..files.len()
            invariant
                forall|k: Seq<char>| #[trigger]
                    name_under(r.by_desktop_id@, k) == name_by_file(files@.take(i as int), k),
                forall|k: Seq<char>| #[trigger]
                    name_under(r.by_exec@, k) == name_by_program(files@.take(i as int), k),
        {
            let ghost before = r;
            let stem = match &files[i].stem {
                Some(stem) => Some(stem.as_str()),
                None => None,
            };
            r.add_file(stem, files[i].text.as_str());
            proof {
                assert(files@.take(i + 1).drop_last() =~= files@.take(i as int));
                assert forall|k: Seq<char>| #[trigger] name_under(r.by_desktop_id@, k) == name_by_file(
                    files@.take(i + 1),
                    k,
                ) by {
                    assert(name_under(before.by_desktop_id@, k) == name_by_file(files@.take(i as int), k));
                }
                assert forall|k: Seq<char>| #[trigger] name_under(r.by_exec@, k) == name_by_program(
                    files@.take(i + 1),
                    k,
                ) by {
                    assert(name_under(before.by_exec@, k) == name_by_program(files@.take(i as int), k));
                }
            }
        }
        assert(files@.take(files@.len() as int) =~= files@);
        r
    }

    /// The application that runs a program.
    pub fn lookup_exec(&self, key: &str) -> (r: Option<String>)
        ensures
            opt_view(r) == self.by_program(key@),
    {
        find_name(&self.by_exec, normalize_lookup_key(key).as_str())
    }

    /// The application of a desktop file.
    pub fn lookup_desktop_id(&self, key: &str) -> (r: Option<String>)
        ensures
            opt_view(r) == self.by_file(key@),
    {
        find_name(&self.by_desktop_id, normalize_desktop_id(key).as_str())
    }

    fn lookup_command_line(&self, cmd: &Vec<String>) -> (r: Option<String>)
        ensures
            opt_view(r) == self.by_command_line(cmd@),
    {
        let mut i: usize = 0;
        assert(cmd@.skip(0) =~= cmd@);
        while i < cmd.len()
            invariant
                i <= cmd@.len(),
                self.by_command_line(cmd@) == self.by_command_line(cmd@.skip(i as int)),
            decreases cmd@.len() - i,
        {
            let candidate = extract_desktop_id_candidate(cmd[i].as_str());
            if let Some(id) = candidate {
                let found = self.lookup_desktop_id(id.as_str());
                if found.is_some() {
                    return found;
                }
            }
            assert(cmd@.skip(i as int).drop_first() =~= cmd@.skip(i + 1));
            i = i + 1;
        }
        None
    }

    fn lookup_first_word(&self, cmd: &Vec<String>) -> (r: Option<String>)
        ensures
            opt_view(r) == self.by_first_word(cmd@),
    {
        if cmd.len() == 0 {
            return None;
        }
        let chars = chars_of(cmd[0].as_str());
        if let Some(base) = name_in_path(chars.as_slice()) {
            let found = self.lookup_exec(string_of(base).as_str());
            if found.is_some() {
                return found;
            }
        }
        self.lookup_desktop_id(cmd[0].as_str())
    }

    /// The application of a process.
    pub fn lookup_process(&self, process: &ProcessInfo) -> (r: Option<String>)
        ensures
            opt_view(r) == self.application(*process),
    {
        let named = self.lookup_command_line(&process.cmd);
        if named.is_some() {
            return named;
        }
        if let Some(exe) = &process.exe_name {
            let found = self.lookup_exec(exe.as_str());
            if found.is_some() {
                return found;
            }
        }
        let first = self.lookup_first_word(&process.cmd);
        if first.is_some() {
            return first;
        }
        let found = self.lookup_exec(process.name.as_str());
        if found.is_some() {
            return found;
        }
        self.lookup_desktop_id(process.name.as_str())
    }
}

/// The program that a command runs, where there is a command.
pub open spec fn program_of_command(command: Option<Seq<char>>) -> Option<Seq<char>> {
    match command {
        Some(command) => first_program(words(command)),
        None => None,
    }
}

/// A text without the white space around it, where something is left.
pub open spec fn some_text(s: Seq<char>) -> Option<Seq<char>> {
    if trim(s).len() > 0 {
        Some(trim(s))
    } else {
        None
    }
}

/// What the first word of a command line is called: its last name where it has one, else all
/// of it.
pub open spec fn first_word_name(cmd: Seq<String>) -> Option<Seq<char>> {
    if cmd.len() == 0 || cmd[0]@.len() == 0 {
        None
    } else {
        either(
            match file_name(cmd[0]@) {
                Some(base) => some_text(base),
                None => None,
            },
            Some(cmd[0]@),
        )
    }
}

/// What the application of a process is called: as its desktop file says, else as its
/// program, the first word of its command line, or itself.
pub open spec fn app_name(resolver: DesktopAppResolver, process: ProcessInfo) -> Seq<char> {
    match either(
        resolver.application(process),
        either(
            match process.exe_name {
                Some(exe) => some_text(exe@),
                None => None,
            },
            either(first_word_name(process.cmd@), some_text(process.name@)),
        ),
    ) {
        Some(name) => name,
        None => "unknown"@,
    }
}

fn trimmed_string(s: &str) -> (r: Option<String>)
    ensures
        opt_view(r) == some_text(s@),
{
    let chars = chars_of(s);
    let t = trimmed(chars.as_slice());
    if t.len() > 0 {
        Some(string_of(t))
    } else {
        None
    }
}

/// What the application of a process is called.
pub fn detect_process_app_name(resolver: &DesktopAppResolver, process: &ProcessInfo) -> (r: String)
    ensures
        r@ == app_name(*resolver, *process),
{
    if let Some(name) = resolver.lookup_process(process) {
        return name;
    }
    if let Some(exe) = &process.exe_name {
        if let Some(name) = trimmed_string(exe.as_str()) {
            return name;
        }
    }
    if process.cmd.len() > 0 && !process.cmd[0].as_str().is_empty() {
        let chars = chars_of(process.cmd[0].as_str());
        if let Some(base) = name_in_path(chars.as_slice()) {
            if let Some(name) = trimmed_string(string_of(base).as_str()) {
                return name;
            }
        }
        return process.cmd[0].clone();
    }
    match trimmed_string(process.name.as_str()) {
        Some(name) => name,
        None => copy_str("unknown"),
    }
}

// ---------------------------------------------------------------------------
// Where desktop files are
// ---------------------------------------------------------------------------

/// A path below a directory.
pub open spec fn joined(dir: Seq<char>, rest: Seq<char>) -> Seq<char> {
    if dir.len() == 0 || dir.last() == '/' {
        dir + rest
    } else {
        dir + "/"@ + rest
    }
}

fn join_path(dir: &str, rest: &str) -> (r: String)
    ensures
        r@ == joined(dir@, rest@),
{
    let chars = chars_of(dir);
    let mut r = copy_str(dir);
    if chars.len() > 0 && chars[chars.len() - 1] != '/' {
        r.append("/");
    }
    r.append(rest);
    r
}

/// The directories that are searched for desktop files: one of the user's own, where it is
/// known, then those of the system.
pub open spec fn desktop_dirs(data_home: Option<Seq<char>>, home: Option<Seq<char>>) -> Seq<Seq<char>> {
    let own = match data_home {
        Some(dir) => seq![joined(dir, "applications"@)],
        None => match home {
            Some(dir) => seq![joined(dir, ".local/share/applications"@)],
            None => Seq::empty(),
        },
    };
    own.push("/usr/local/share/applications"@).push("/usr/share/applications"@).push(
        "/var/lib/flatpak/exports/share/applications"@,
    ).push("/var/lib/snapd/desktop/applications"@)
}

/// What texts hold.
pub open spec fn string_views(list: Seq<String>) -> Seq<Seq<char>> {
    Seq::new(list.len(), |i: int| list[i]@)
}

/// What a text holds, where there is one.
pub open spec fn str_view(s: Option<&str>) -> Option<Seq<char>> {
    match s {
        Some(s) => Some(s@),
        None => None,
    }
}

/// The directories that are searched for desktop files.
pub fn desktop_roots(data_home: Option<&str>, home: Option<&str>) -> (roots: Vec<String>)
    ensures
        string_views(roots@) == desktop_dirs(str_view(data_home), str_view(home)),
{
    let mut roots: Vec<String> = Vec::new();
    match data_home {
        Some(dir) => {
            roots.push(join_path(dir, "applications"));
        },
        None => {
            if let Some(dir) = home {
                roots.push(join_path(dir, ".local/share/applications"));
            }
        },
    }
    roots.push(copy_str("/usr/local/share/applications"));
    roots.push(copy_str("/usr/share/applications"));
    roots.push(copy_str("/var/lib/flatpak/exports/share/applications"));
    roots.push(copy_str("/var/lib/snapd/desktop/applications"));
    assert(string_views(roots@) =~= desktop_dirs(str_view(data_home), str_view(home)));
    roots
}

/// Whether a name is one of a desktop file: the extension, with something before it.
pub open spec fn names_desktop_file(name: Seq<char>) -> bool {
    crate::text::ends_with(name, ".desktop"@) && name.len() > ".desktop"@.len()
}

/// Whether a file is a desktop file, by its name.
pub fn is_desktop_file(name: &str) -> (r: bool)
    ensures
        r == names_desktop_file(name@),
        r == (crate::text::ends_with(name@, ".desktop"@) && name@.len() > ".desktop"@.len()),
{
    let chars = chars_of(name);
    let suffix = chars_of(".desktop");
    chars.len() > suffix.len() && finishes_with(chars.as_slice(), suffix.as_slice())
}

/// A desktop file that comes later never changes the name that an earlier one gave.
pub proof fn law_first_name_stays(files: Seq<DesktopFile>, later: DesktopFile, key: Seq<char>)
    ensures
        name_by_file(files, key) is Some ==> name_by_file(files.push(later), key) == name_by_file(files, key),
        name_by_program(files, key) is Some ==> name_by_program(files.push(later), key) == name_by_program(
            files,
            key,
        ),
{
    assert(files.push(later).drop_last() =~= files);
}

// ---------------------------------------------------------------------------
// Laws
// ---------------------------------------------------------------------------

/// One more prefix or suffix changes nothing, and what does not begin or end with it is left as
/// it is.
pub proof fn law_all_of_them_go(p: Seq<char>, r: Seq<char>)
    requires
        p.len() > 0,
    ensures
        without_start(p + r, p) == without_start(r, p),
        without_end(r + p, p) == without_end(r, p),
        !starts_with(without_start(r, p), p),
        !crate::text::ends_with(without_end(r, p), p),
        !starts_with(r, p) ==> without_start(p + r, p) == r,
        !crate::text::ends_with(r, p) ==> without_end(r + p, p) == r,
    decreases r.len(),
{
    law_begins_and_ends(p, r, r);
    assert((p + r).skip(p.len() as int) =~= r);
    assert((r + p).take(r.len() as int) =~= r);
    assert(without_start(p + r, p) == without_start(r, p));
    assert(without_end(r + p, p) == without_end(r, p));
    if starts_with(r, p) {
        law_all_of_them_go(p, r.skip(p.len() as int));
    } else {
        assert(without_start(r, p) == r);
    }
    if crate::text::ends_with(r, p) {
        law_all_of_them_go(p, r.take(r.len() - p.len()));
    } else {
        assert(without_end(r, p) == r);
    }
}

/// The value of a key is what follows it, without the white space around it; a blank value is
/// none.
pub proof fn law_value_follows_key(key: Seq<char>, rest: Seq<char>)
    requires
        key.len() > 0,
        !starts_with(rest, key),
    ensures
        trim(rest).len() > 0 ==> value_of(key + rest, key) == Some(trim(rest)),
        trim(rest).len() == 0 ==> value_of(key + rest, key) is None,
{
    law_all_of_them_go(key, rest);
}

/// Whether a line is a heading: something in square brackets.
pub open spec fn is_heading(raw: Seq<char>) -> bool {
    trim(raw).len() > 0 && trim(raw)[0] == '[' && trim(raw).last() == ']'
}

/// Whether a line is the heading of the desktop entry, in whatever case.
pub open spec fn opens_entry(raw: Seq<char>) -> bool {
    is_heading(raw) && lower(trim(raw)) == "[desktop entry]"@
}

/// Whether the heading in force at a line is that of the desktop entry.
pub open spec fn within_entry(list: Seq<Seq<char>>, n: int) -> bool {
    exists|h: int|
        0 <= h < n && opens_entry(#[trigger] list[h]) && forall|j: int|
            h < j < n ==> !is_heading(#[trigger] list[j])
}

/// Whether a line of the desktop entry gives a key a value that is not blank.
pub open spec fn gives_value(list: Seq<Seq<char>>, i: int, key: Seq<char>) -> bool {
    &&& 0 <= i < list.len()
    &&& within_entry(list, i)
    &&& starts_with(trim(list[i]), key)
    &&& value_of(trim(list[i]), key) is Some
}

/// Whether a line is the first of the desktop entry that gives a key a value.
pub open spec fn first_to_give(list: Seq<Seq<char>>, i: int, key: Seq<char>) -> bool {
    gives_value(list, i, key) && forall|j: int| 0 <= j < i ==> !#[trigger] gives_value(list, j, key)
}

/// Whether no line of the desktop entry gives a key a value.
pub open spec fn none_gives(list: Seq<Seq<char>>, key: Seq<char>) -> bool {
    forall|i: int| !#[trigger] gives_value(list, i, key)
}

proof fn lemma_within_prefix(list: Seq<Seq<char>>, n: int)
    requires
        0 <= n < list.len(),
    ensures
        within_entry(list.drop_last(), n) == within_entry(list, n),
{
    let front = list.drop_last();
    if within_entry(list, n) {
        let h = choose|h: int|
            0 <= h < n && opens_entry(#[trigger] list[h]) && forall|j: int|
                h < j < n ==> !is_heading(#[trigger] list[j]);
        assert(opens_entry(front[h]));
        assert forall|j: int| h < j < n implies !is_heading(#[trigger] front[j]) by {
            assert(!is_heading(list[j]));
        }
    }
    if within_entry(front, n) {
        let h = choose|h: int|
            0 <= h < n && opens_entry(#[trigger] front[h]) && forall|j: int|
                h < j < n ==> !is_heading(#[trigger] front[j]);
        assert(opens_entry(list[h]));
        assert forall|j: int| h < j < n implies !is_heading(#[trigger] list[j]) by {
            assert(!is_heading(front[j]));
        }
    }
}

proof fn lemma_within_step(list: Seq<Seq<char>>, n: int)
    requires
        0 <= n < list.len(),
    ensures
        within_entry(list, n + 1) == (opens_entry(list[n]) || (within_entry(list, n) && !is_heading(list[n]))),
{
    if within_entry(list, n + 1) {
        let h = choose|h: int|
            0 <= h < n + 1 && opens_entry(#[trigger] list[h]) && forall|j: int|
                h < j < n + 1 ==> !is_heading(#[trigger] list[j]);
        if h < n {
            assert(within_entry(list, n));
        }
    }
    if within_entry(list, n) && !is_heading(list[n]) {
        let h = choose|h: int|
            0 <= h < n && opens_entry(#[trigger] list[h]) && forall|j: int|
                h < j < n ==> !is_heading(#[trigger] list[j]);
        assert(within_entry(list, n + 1));
    }
}

proof fn lemma_entry_keys()
    ensures
        lower("[Desktop Entry]"@) == "[desktop entry]"@,
        "Name="@ == seq!['N', 'a', 'm', 'e', '='],
        "Exec="@ == seq!['E', 'x', 'e', 'c', '='],
{
    reveal_strlit("[Desktop Entry]");
    reveal_strlit("[desktop entry]");
    reveal_strlit("Name=");
    reveal_strlit("Exec=");
    assert(lower("[Desktop Entry]"@) =~= "[desktop entry]"@);
    assert("Name="@ =~= seq!['N', 'a', 'm', 'e', '=']);
    assert("Exec="@ =~= seq!['E', 'x', 'e', 'c', '=']);
}

proof fn lemma_line_gives(found: EntryView, raw: Seq<char>)
    ensures
        entry_step(found, raw).in_entry == (opens_entry(raw) || (found.in_entry && !is_heading(raw))),
        found.name is Some || !found.in_entry || !starts_with(trim(raw), "Name="@) ==> entry_step(found, raw).name
            == found.name,
        found.name is None && found.in_entry && starts_with(trim(raw), "Name="@) ==> entry_step(found, raw).name
            == value_of(trim(raw), "Name="@),
        found.command is Some || !found.in_entry || !starts_with(trim(raw), "Exec="@) ==> entry_step(
            found,
            raw,
        ).command == found.command,
        found.command is None && found.in_entry && starts_with(trim(raw), "Exec="@) ==> entry_step(
            found,
            raw,
        ).command == value_of(trim(raw), "Exec="@),
{
    lemma_entry_keys();
    let line = trim(raw);
    if starts_with(line, "Name="@) {
        assert(line.take(5)[0] == 'N');
    }
    if starts_with(line, "Exec="@) {
        assert(line.take(5)[0] == 'E');
    }
}

/// The name of a desktop file is what the first line of its desktop entry that gives one says,
/// and its command what the first line that gives one says, each whatever the other lines give
/// and wherever they stand. Lines outside the desktop entry and blank values do not count.
pub proof fn law_first_of_each_key(list: Seq<Seq<char>>)
    ensures
        entry_in(list).in_entry == within_entry(list, list.len() as int),
        forall|i: int| #[trigger]
            first_to_give(list, i, "Name="@) ==> entry_in(list).name == value_of(trim(list[i]), "Name="@),
        forall|i: int| #[trigger]
            first_to_give(list, i, "Exec="@) ==> entry_in(list).command == value_of(trim(list[i]), "Exec="@),
        none_gives(list, "Name="@) <==> entry_in(list).name is None,
        none_gives(list, "Exec="@) <==> entry_in(list).command is None,
    decreases list.len(),
{
    if list.len() > 0 {
        let front = list.drop_last();
        let n = list.len() - 1;
        let found = entry_in(front);
        law_first_of_each_key(front);
        lemma_within_step(list, n);
        lemma_within_prefix(list, n);
        lemma_line_gives(found, list.last());
        lemma_first_of_key(list, "Name="@);
        lemma_first_of_key(list, "Exec="@);
    }
}

proof fn lemma_first_of_key(list: Seq<Seq<char>>, key: Seq<char>)
    requires
        list.len() > 0,
    ensures
        forall|i: int|
            0 <= i < list.len() - 1 ==> gives_value(list.drop_last(), i, key) == #[trigger] gives_value(list, i, key),
        forall|i: int|
            0 <= i < list.len() - 1 ==> #[trigger] first_to_give(list, i, key) == first_to_give(
                list.drop_last(),
                i,
                key,
            ),
        first_to_give(list, list.len() - 1, key) ==> none_gives(list.drop_last(), key),
        none_gives(list, key) <==> (none_gives(list.drop_last(), key) && !gives_value(list, list.len() - 1, key)),
{
    let front = list.drop_last();
    assert forall|i: int| 0 <= i < list.len() - 1 implies gives_value(front, i, key) == #[trigger] gives_value(
        list,
        i,
        key,
    ) by {
        lemma_within_prefix(list, i);
        assert(front[i] == list[i]);
    }
    assert forall|i: int| 0 <= i < list.len() - 1 implies #[trigger] first_to_give(list, i, key) == first_to_give(
        front,
        i,
        key,
    ) by {
        assert(gives_value(list, i, key) == gives_value(front, i, key));
        if first_to_give(list, i, key) {
            assert forall|j: int| 0 <= j < i implies !#[trigger] gives_value(front, j, key) by {
                assert(!gives_value(list, j, key));
            }
        }
        if first_to_give(front, i, key) {
            assert forall|j: int| 0 <= j < i implies !#[trigger] gives_value(list, j, key) by {
                assert(!gives_value(front, j, key));
            }
        }
    }
    if first_to_give(list, list.len() - 1, key) {
        assert forall|i: int| !#[trigger] gives_value(front, i, key) by {
            if gives_value(front, i, key) {
                assert(!gives_value(list, i, key));
            }
        }
    }
    if none_gives(list, key) {
        assert forall|i: int| !#[trigger] gives_value(front, i, key) by {
            assert(!gives_value(list, i, key));
        }
    }
    if none_gives(front, key) && !gives_value(list, list.len() - 1, key) {
        assert forall|i: int| !#[trigger] gives_value(list, i, key) by {
            assert(!gives_value(front, i, key));
        }
    }
}

/// A line that is no heading and gives no command changes nothing of the command, wherever it is
/// put in; so does one that gives no name of the name.
pub proof fn law_other_lines_do_not_count(list: Seq<Seq<char>>, i: int, raw: Seq<char>)
    requires
        0 <= i <= list.len(),
        !is_heading(raw),
    ensures
        entry_in(list.insert(i, raw)).in_entry == entry_in(list).in_entry,
        !starts_with(trim(raw), "Exec="@) ==> entry_in(list.insert(i, raw)).command == entry_in(list).command,
        !starts_with(trim(raw), "Name="@) ==> entry_in(list.insert(i, raw)).name == entry_in(list).name,
    decreases list.len(),
{
    let longer = list.insert(i, raw);
    if i == list.len() {
        assert(longer.drop_last() =~= list);
        assert(longer.last() == raw);
        lemma_line_gives(entry_in(list), raw);
    } else {
        let front = list.drop_last();
        law_other_lines_do_not_count(front, i, raw);
        assert(longer.drop_last() =~= front.insert(i, raw));
        assert(longer.last() == list.last());
        lemma_line_gives(entry_in(front), list.last());
        lemma_line_gives(entry_in(front.insert(i, raw)), list.last());
    }
}

/// A desktop file gives the first name and the first command of the desktop entry among its
/// lines, and nothing where no line gives a name.
pub proof fn law_desktop_file(text: Seq<char>, i: int, j: int)
    requires
        first_to_give(lines(text), i, "Name="@),
    ensures
        desktop_entry(text) is Some,
        Some((desktop_entry(text)->0).0) == value_of(trim(lines(text)[i]), "Name="@),
        first_to_give(lines(text), j, "Exec="@) ==> (desktop_entry(text)->0).1 == value_of(
            trim(lines(text)[j]),
            "Exec="@,
        ),
        none_gives(lines(text), "Exec="@) ==> (desktop_entry(text)->0).1 is None,
{
    law_first_of_each_key(lines(text));
}

/// A file none of whose lines gives a name describes no application.
pub proof fn law_no_name_no_entry(text: Seq<char>)
    requires
        none_gives(lines(text), "Name="@),
    ensures
        desktop_entry(text) is None,
{
    law_first_of_each_key(lines(text));
}

/// A name with a path before it is looked up by the last name of the path, in lower case, and a
/// desktop file also without its extension.
pub proof fn law_keys(raw: Seq<char>, dir: Seq<char>, name: Seq<char>)
    requires
        is_name(name),
    ensures
        trim(raw) == name ==> lookup_key(raw) == lower(name),
        trim(raw) == dir.push('/') + name ==> lookup_key(raw) == lower(name),
        trim(raw) == name && !crate::text::ends_with(name, ".desktop"@) ==> desktop_key(raw) == lower(name),
        trim(raw) == name + ".desktop"@ && !crate::text::ends_with(name, ".desktop"@) ==> desktop_key(raw)
            == lower(name),
        trim(raw) == dir.push('/') + name + ".desktop"@ && !crate::text::ends_with(
            dir.push('/') + name,
            ".desktop"@,
        ) ==> desktop_key(raw) == lower(name),
{
    reveal_strlit(".desktop");
    law_last_name(dir, name);
    law_all_of_them_go(".desktop"@, name);
    law_all_of_them_go(".desktop"@, dir.push('/') + name);
}

/// A word that is a plain name, or a path to one, names that program; quotes around it do not
/// count.
pub proof fn law_word_names_program(word: Seq<char>, dir: Seq<char>, name: Seq<char>)
    requires
        is_name(name),
        trim(name) == name,
        strip_both(word, Strip::Quote).len() > 0,
        strip_both(word, Strip::Quote)[0] != '%',
        word != "env"@,
    ensures
        strip_both(word, Strip::Quote) == name && !word.contains('=') ==> program_in(word) == Some(lower(name)),
        strip_both(word, Strip::Quote) == dir.push('/') + name && word.contains('/') ==> program_in(word) == Some(
            lower(name),
        ),
{
    law_last_name(dir, name);
}

/// `env`, an assignment, a placeholder and an empty word name no program.
pub proof fn law_word_names_none(word: Seq<char>)
    ensures
        program_in("env"@) is None,
        word.contains('=') && !word.contains('/') ==> program_in(word) is None,
        word.len() > 0 && word[0] == '%' ==> program_in(word) is None,
        (forall|i: int| 0 <= i < word.len() ==> #[trigger] word[i] == '"') ==> program_in(word) is None,
{
    law_strip_takes_ends(word, Strip::Quote);
    let command = strip_both(word, Strip::Quote);
    let (a, b) = choose|a: int, b: int| is_middle(command, word, Strip::Quote, a, b);
    if word.len() > 0 && word[0] == '%' {
        assert(!Strip::Quote.holds(word[0]));
        assert(command.len() == 0 || command[0] == word[0]);
    }
    if command.len() > 0 {
        assert(command[0] == word[a]);
    }
}

/// The program of a command is that of the first word that names one.
pub proof fn law_first_program(list: Seq<Seq<char>>, i: int)
    requires
        0 <= i <= list.len(),
        forall|j: int| 0 <= j < i ==> program_in(#[trigger] list[j]) is None,
    ensures
        i < list.len() && program_in(list[i]) is Some ==> first_program(list) == program_in(list[i]),
        i == list.len() ==> first_program(list) is None,
    decreases list.len(),
{
    if i > 0 {
        assert(program_in(list[0]) is None);
        let rest = list.drop_first();
        assert forall|j: int| 0 <= j < i - 1 implies program_in(#[trigger] rest[j]) is None by {
            assert(program_in(list[j + 1]) is None);
        }
        law_first_program(rest, i - 1);
    }
}

/// A word that holds a desktop file names it by what stands between the last slash and the
/// extension; other words name none.
pub proof fn law_word_names_desktop_file(raw: Seq<char>, dir: Seq<char>, id: Seq<char>, rest: Seq<char>)
    requires
        id.len() > 0,
        !id.contains('/'),
        !rest.contains('/'),
        forall|i: int| 0 <= i < id.len() ==> !#[trigger] stands_at(id + ".desktop"@ + rest, ".desktop"@, i),
    ensures
        strip_both(raw, Strip::Quote) == id + ".desktop"@ + rest ==> desktop_id_in(raw) == Some(id),
        strip_both(raw, Strip::Quote) == dir.push('/') + (id + ".desktop"@ + rest) && !starts_with(
            strip_both(raw, Strip::Quote),
            "application://"@,
        ) ==> desktop_id_in(raw) == Some(id),
        strip_both(raw, Strip::Quote) == "application://"@ + (id + ".desktop"@ + rest) ==> desktop_id_in(raw) == Some(
            id,
        ),
        (forall|i: int| !#[trigger] stands_at(raw, ".desktop"@, i)) ==> desktop_id_in(raw) is None,
{
    reveal_strlit(".desktop");
    reveal_strlit("application://");
    let needle = ".desktop"@;
    let scheme = "application://"@;
    let token = strip_both(raw, Strip::Quote);
    let tail = id + needle + rest;
    lemma_id_in_tail(id, rest);
    law_first_occurrence(raw, needle);
    if token == tail {
        lemma_last_part_holds_id(raw, Seq::empty(), id, rest);
        assert(Seq::<char>::empty() + tail =~= tail);
        law_last_field(dir, tail);
        if starts_with(token, scheme) {
            assert(token.take(scheme.len() as int)[12] == '/');
            assert(token[12] == '/');
        }
    }
    if token == dir.push('/') + tail {
        lemma_last_part_holds_id(raw, dir.push('/'), id, rest);
        law_last_field(dir, tail);
    }
    if token == scheme + tail {
        lemma_last_part_holds_id(raw, scheme, id, rest);
        law_last_field(dir, tail);
        law_begins_and_ends(scheme, tail, tail);
        assert(token.skip(scheme.len() as int) =~= tail);
    }
}

proof fn lemma_id_in_tail(id: Seq<char>, rest: Seq<char>)
    requires
        id.len() > 0,
        !id.contains('/'),
        !rest.contains('/'),
        forall|i: int| 0 <= i < id.len() ==> !#[trigger] stands_at(id + ".desktop"@ + rest, ".desktop"@, i),
    ensures
        find_text(id + ".desktop"@ + rest, ".desktop"@) == Some(id.len() as int),
        (id + ".desktop"@ + rest).take(id.len() as int) == id,
        !(id + ".desktop"@ + rest).contains('/'),
{
    let needle = ".desktop"@;
    let tail = id + needle + rest;
    lemma_without_slash(id, needle);
    lemma_without_slash(id + needle, rest);
    law_first_occurrence(tail, needle);
    assert(tail.subrange(id.len() as int, (id.len() + needle.len()) as int) =~= needle);
    assert(stands_at(tail, needle, id.len() as int));
    assert(tail.take(id.len() as int) =~= id);
}

proof fn lemma_without_slash(a: Seq<char>, b: Seq<char>)
    requires
        !a.contains('/'),
        b == ".desktop"@ || !b.contains('/'),
    ensures
        !(a + b).contains('/'),
{
    reveal_strlit(".desktop");
    let s = a + b;
    if s.contains('/') {
        let i = choose|i: int| 0 <= i < s.len() && s[i] == '/';
        if i < a.len() {
            assert(a[i] == '/');
        } else {
            assert(b[i - a.len()] == '/');
        }
    }
}

proof fn lemma_last_part_holds_id(raw: Seq<char>, before: Seq<char>, id: Seq<char>, rest: Seq<char>)
    requires
        strip_both(raw, Strip::Quote) == before + (id + ".desktop"@ + rest),
    ensures
        find_text(raw, ".desktop"@) is Some,
{
    let needle = ".desktop"@;
    let token = strip_both(raw, Strip::Quote);
    law_strip_takes_ends(raw, Strip::Quote);
    let (a, b) = choose|a: int, b: int| is_middle(token, raw, Strip::Quote, a, b);
    let n = before.len() as int + id.len();
    assert(token.subrange(n, n + needle.len()) =~= needle);
    assert(raw.subrange(a + n, a + n + needle.len()) =~= token.subrange(n, n + needle.len()));
    assert(stands_at(raw, needle, a + n));
    law_first_occurrence(raw, needle);
}

/// The name under a key is the one that stands first under it.
pub proof fn law_first_name_under_key(list: Seq<Named>, key: Seq<char>, i: int)
    requires
        0 <= i <= list.len(),
        forall|j: int| 0 <= j < i ==> (#[trigger] list[j]).key@ != key,
    ensures
        i < list.len() && list[i].key@ == key ==> name_under(list, key) == Some(list[i].name@),
        i == list.len() ==> name_under(list, key) is None,
    decreases list.len(),
{
    if i > 0 {
        assert(list[0].key@ != key);
        let rest = list.drop_first();
        assert forall|j: int| 0 <= j < i - 1 implies (#[trigger] rest[j]).key@ != key by {
            assert(list[j + 1].key@ != key);
        }
        law_first_name_under_key(rest, key, i - 1);
    }
}

/// An application is known by the name of its desktop file: of several files with one key the
/// first that names an application counts, and under another key a file changes nothing.
pub proof fn law_known_by_file(files: Seq<DesktopFile>, file: DesktopFile, key: Seq<char>)
    ensures
        name_by_file(Seq::<DesktopFile>::empty(), key) is None,
        name_by_file(files, key) is None && file.stem is Some && desktop_entry(file.text@) is Some && lookup_key(
            (file.stem->0)@,
        ) == key ==> name_by_file(files.push(file), key) == Some((desktop_entry(file.text@)->0).0),
        file.stem is None || desktop_entry(file.text@) is None || lookup_key((file.stem->0)@) != key ==> name_by_file(
            files.push(file),
            key,
        ) == name_by_file(files, key),
{
    assert(files.push(file).drop_last() =~= files);
}

/// An application is known by the program that its desktop file runs: of several files that run
/// it the first that names an application counts, and a file that runs another, or none, changes
/// nothing.
pub proof fn law_known_by_program(files: Seq<DesktopFile>, file: DesktopFile, key: Seq<char>)
    ensures
        name_by_program(Seq::<DesktopFile>::empty(), key) is None,
        name_by_program(files, key) is None && file.stem is Some && desktop_entry(file.text@) is Some && (
        desktop_entry(file.text@)->0).1 is Some && first_program(words((desktop_entry(file.text@)->0).1->0)) == Some(
            key,
        ) ==> name_by_program(files.push(file), key) == Some((desktop_entry(file.text@)->0).0),
        file.stem is None || desktop_entry(file.text@) is None || (desktop_entry(file.text@)->0).1 is None
            || first_program(words((desktop_entry(file.text@)->0).1->0)) != Some(key) ==> name_by_program(
            files.push(file),
            key,
        ) == name_by_program(files, key),
{
    assert(files.push(file).drop_last() =~= files);
}

/// A command line gives the application of the first of its words that names a known desktop
/// file.
pub proof fn law_first_known_word(resolver: DesktopAppResolver, cmd: Seq<String>, i: int, id: Seq<char>)
    requires
        0 <= i < cmd.len(),
        forall|j: int|
            0 <= j < i ==> match desktop_id_in((#[trigger] cmd[j])@) {
                Some(other) => name_under(resolver.by_desktop_id@, desktop_key(other)) is None,
                None => true,
            },
        desktop_id_in(cmd[i]@) == Some(id),
        name_under(resolver.by_desktop_id@, desktop_key(id)) is Some,
    ensures
        resolver.by_command_line(cmd) == name_under(resolver.by_desktop_id@, desktop_key(id)),
    decreases cmd.len(),
{
    if i > 0 {
        assert(match desktop_id_in(cmd[0]@) {
            Some(other) => name_under(resolver.by_desktop_id@, desktop_key(other)) is None,
            None => true,
        });
        let rest = cmd.drop_first();
        assert forall|j: int| 0 <= j < i - 1 implies match desktop_id_in((#[trigger] rest[j])@) {
            Some(other) => name_under(resolver.by_desktop_id@, desktop_key(other)) is None,
            None => true,
        } by {
            assert(rest[j] == cmd[j + 1]);
        }
        law_first_known_word(resolver, rest, i - 1, id);
    }
}

/// A command line none of whose words names a known desktop file gives no application.
pub proof fn law_no_known_word(resolver: DesktopAppResolver, cmd: Seq<String>)
    requires
        forall|j: int|
            0 <= j < cmd.len() ==> match desktop_id_in((#[trigger] cmd[j])@) {
                Some(other) => name_under(resolver.by_desktop_id@, desktop_key(other)) is None,
                None => true,
            },
    ensures
        resolver.by_command_line(cmd) is None,
    decreases cmd.len(),
{
    if cmd.len() > 0 {
        assert(match desktop_id_in(cmd[0]@) {
            Some(other) => name_under(resolver.by_desktop_id@, desktop_key(other)) is None,
            None => true,
        });
        let rest = cmd.drop_first();
        assert forall|j: int| 0 <= j < rest.len() implies match desktop_id_in((#[trigger] rest[j])@) {
            Some(other) => name_under(resolver.by_desktop_id@, desktop_key(other)) is None,
            None => true,
        } by {
            assert(rest[j] == cmd[j + 1]);
        }
        law_no_known_word(resolver, rest);
    }
}

/// The desktop file that the command line names decides; without one the program decides, then
/// the first word of the command line as a program and as a desktop file, then the name of the
/// process as a program and as a desktop file.
pub proof fn law_who_decides(resolver: DesktopAppResolver, process: ProcessInfo)
    ensures
        ({
            let programs = resolver.by_exec@;
            let entries = resolver.by_desktop_id@;
            let named = resolver.by_command_line(process.cmd@);
            let exe = if process.exe_name is Some {
                name_under(programs, lookup_key((process.exe_name->0)@))
            } else {
                None
            };
            let has_word = process.cmd@.len() > 0;
            let base = if has_word {
                file_name(process.cmd@[0]@)
            } else {
                None
            };
            let word = if base is Some {
                name_under(programs, lookup_key(base->0))
            } else {
                None
            };
            let word_file = if has_word {
                name_under(entries, desktop_key(process.cmd@[0]@))
            } else {
                None
            };
            let own = name_under(programs, lookup_key(process.name@));
            let own_file = name_under(entries, desktop_key(process.name@));
            let found = resolver.application(process);
            &&& named is Some ==> found == named
            &&& named is None && exe is Some ==> found == exe
            &&& named is None && exe is None && word is Some ==> found == word
            &&& named is None && exe is None && word is None && word_file is Some ==> found == word_file
            &&& named is None && exe is None && word is None && word_file is None && own is Some ==> found == own
            &&& named is None && exe is None && word is None && word_file is None && own is None ==> found == own_file
        }),
{
}

/// Where no application is known a process goes by its program, by the last name of the first
/// word of its command line or that word itself, by its own name, or is unknown; blank names do
/// not count.
pub proof fn law_names_of_processes(resolver: DesktopAppResolver, process: ProcessInfo)
    ensures
        ({
            let name = app_name(resolver, process);
            let exe = if process.exe_name is Some {
                trim((process.exe_name->0)@)
            } else {
                Seq::empty()
            };
            let first = if process.cmd@.len() > 0 {
                process.cmd@[0]@
            } else {
                Seq::empty()
            };
            let base = if file_name(first) is Some {
                trim(file_name(first)->0)
            } else {
                Seq::empty()
            };
            let known = resolver.application(process);
            &&& known is Some ==> name == known->0
            &&& known is None && exe.len() > 0 ==> name == exe
            &&& known is None && exe.len() == 0 && first.len() > 0 && base.len() > 0 ==> name == base
            &&& known is None && exe.len() == 0 && first.len() > 0 && base.len() == 0 ==> name == first
            &&& known is None && exe.len() == 0 && first.len() == 0 && trim(process.name@).len() > 0 ==> name == trim(
                process.name@,
            )
            &&& known is None && exe.len() == 0 && first.len() == 0 && trim(process.name@).len() == 0 ==> name
                == "unknown"@
        }),
{
}

/// A path below a directory has one slash between the two, also where the directory ends with
/// one.
pub proof fn law_path_below(dir: Seq<char>, rest: Seq<char>)
    ensures
        dir.len() > 0 && dir.last() != '/' ==> joined(dir, rest) == dir.push('/') + rest,
        joined(dir.push('/'), rest) == dir.push('/') + rest,
        joined(Seq::<char>::empty(), rest) == rest,
{
    reveal_strlit("/");
    assert(dir + "/"@ + rest =~= dir.push('/') + rest);
    assert(Seq::<char>::empty() + rest =~= rest);
}

/// The directory of the user comes first: below the data directory where that is known, else
/// below the home directory, where that is known. The four of the system follow, always in the
/// same order.
pub proof fn law_places(data: Seq<char>, home: Option<Seq<char>>, dir: Seq<char>)
    ensures
        ({
            let system = seq![
                "/usr/local/share/applications"@,
                "/usr/share/applications"@,
                "/var/lib/flatpak/exports/share/applications"@,
                "/var/lib/snapd/desktop/applications"@,
            ];
            &&& desktop_dirs(Some(data), home) == seq![joined(data, "applications"@)] + system
            &&& desktop_dirs(None, Some(dir)) == seq![joined(dir, ".local/share/applications"@)] + system
            &&& desktop_dirs(None, None) == system
        }),
{
    let system = seq![
        "/usr/local/share/applications"@,
        "/usr/share/applications"@,
        "/var/lib/flatpak/exports/share/applications"@,
        "/var/lib/snapd/desktop/applications"@,
    ];
    assert(desktop_dirs(Some(data), home) =~= seq![joined(data, "applications"@)] + system);
    assert(desktop_dirs(None, Some(dir)) =~= seq![joined(dir, ".local/share/applications"@)] + system);
    assert(desktop_dirs(None, None) =~= system);
}

/// A file is a desktop file where its name is something with the extension behind it.
pub proof fn law_desktop_extension(name: Seq<char>, stem: Seq<char>)
    ensures
        stem.len() > 0 ==> names_desktop_file(stem + ".desktop"@),
        names_desktop_file(name) ==> exists|s: Seq<char>| s.len() > 0 && name == s + ".desktop"@,
        !names_desktop_file(".desktop"@),
{
    law_begins_and_ends(".desktop"@, stem, name);
    if names_desktop_file(name) {
        let s = name.subrange(0, name.len() - ".desktop"@.len());
        assert(s.len() > 0 && name == s + ".desktop"@);
    }
}

} // verus!

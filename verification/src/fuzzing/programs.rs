//! The programs that seeds come from.
use std::collections::hash_map::DefaultHasher;
use std::hash::Hasher;
use vstd::prelude::*;
use vstd::std_specs::hash::DefaultHasherAdditionalSpecFns;
use vstd::string::StringExecFns;

use crate::fuzzing::vm;
use crate::fuzzing::vm::Binary;
use crate::text;
use crate::text::push_hex;

verus! {

/// The order of names: by the first character in which they differ, a prefix before what it begins.
pub open spec fn name_less(a: Seq<char>, b: Seq<char>) -> bool
    decreases a.len(),
{
    if b.len() == 0 {
        false
    } else if a.len() == 0 {
        true
    } else if a[0] != b[0] {
        (a[0] as int) < (b[0] as int)
    } else {
        name_less(a.skip(1), b.skip(1))
    }
}

proof fn lemma_not_less_itself(a: Seq<char>)
    ensures
        !name_less(a, a),
    decreases a.len(),
{
    if a.len() > 0 {
        lemma_not_less_itself(a.skip(1));
    }
}

proof fn lemma_less_transitive(a: Seq<char>, b: Seq<char>, c: Seq<char>)
    requires
        name_less(a, b),
        name_less(b, c),
    ensures
        name_less(a, c),
    decreases a.len(),
{
    if a.len() > 0 && a[0] == b[0] && b[0] == c[0] {
        lemma_less_transitive(a.skip(1), b.skip(1), c.skip(1));
    }
}

proof fn lemma_less_total(a: Seq<char>, b: Seq<char>)
    ensures
        name_less(a, b) || a == b || name_less(b, a),
    decreases a.len(),
{
    if a.len() > 0 && b.len() > 0 && a[0] == b[0] {
        lemma_less_total(a.skip(1), b.skip(1));
        if a.skip(1) == b.skip(1) {
            assert(a =~= seq![a[0]] + a.skip(1));
            assert(b =~= seq![b[0]] + b.skip(1));
        }
    } else if a.len() == 0 && b.len() == 0 {
        assert(a =~= b);
    }
}

fn is_less(a: &str, b: &str) -> (r: bool)
    ensures
        r == name_less(a@, b@),
{
    let n: usize = a.unicode_len();
    let m: usize = b.unicode_len();
    let mut i: usize = 0;
    assert(a@.skip(0) =~= a@);
    assert(b@.skip(0) =~= b@);
    while i < n && i < m
        invariant
            n == a@.len(),
            m == b@.len(),
            i <= n,
            i <= m,
            name_less(a@, b@) == name_less(a@.skip(i as int), b@.skip(i as int)),
        decreases n - i,
    {
        let c = a.get_char(i);
        let d = b.get_char(i);
        assert(a@.skip(i as int).skip(1) =~= a@.skip(i + 1));
        assert(b@.skip(i as int).skip(1) =~= b@.skip(i + 1));
        if c != d {
            return c < d;
        }
        i = i + 1;
    }
    i < m
}

/// A file of the corpus directory: the parts of its name, where it has them, and its path.
#[derive(Debug)]
pub struct SeedFile {
    pub stem: Option<String>,
    pub extension: Option<String>,
    pub path: String,
    pub is_file: bool,
}

impl SeedFile {
    /// Whether this is the file of a program with an extension.
    pub open spec fn provides(self, extension: Seq<char>, name: Seq<char>) -> bool {
        &&& self.is_file
        &&& self.extension matches Some(e) && e@ == extension
        &&& self.stem matches Some(s) && s@ == name
    }

    fn has_extension(&self, extension: &str) -> (r: bool)
        ensures
            r == (self.is_file && (self.extension matches Some(e) && e@ == extension@)),
    {
        if !self.is_file {
            return false;
        }
        match &self.extension {
            Some(e) => *e == String::from_str(extension),
            None => false,
        }
    }
}

/// The path of the last file of a program with an extension.
pub open spec fn last_path(files: Seq<SeedFile>, extension: Seq<char>, name: Seq<char>) -> Option<
    Seq<char>,
>
    decreases files.len(),
{
    if files.len() == 0 {
        None
    } else if files.last().provides(extension, name) {
        Some(files.last().path@)
    } else {
        last_path(files.drop_last(), extension, name)
    }
}

/// A program and the path of one of its files.
struct NamedPath {
    name: String,
    path: String,
}

spec fn paths_sorted(list: Seq<NamedPath>) -> bool {
    forall|i: int, j: int|
        0 <= i < j < list.len() ==> name_less(
            (#[trigger] list[i]).name@,
            (#[trigger] list[j]).name@,
        )
}

spec fn lists_paths(list: Seq<NamedPath>, files: Seq<SeedFile>, extension: Seq<char>) -> bool {
    &&& forall|i: int|
        0 <= i < list.len() ==> last_path(files, extension, (#[trigger] list[i]).name@) == Some(
            list[i].path@,
        )
    &&& forall|name: Seq<char>|
        (#[trigger] last_path(files, extension, name)) is Some ==> exists|i: int|
            0 <= i < list.len() && (#[trigger] list[i]).name@ == name
}

/// Where a list holds a name, or where it would stand.
fn find_position(list: &Vec<NamedPath>, name: &String) -> (r: usize)
    requires
        paths_sorted(list@),
    ensures
        r <= list@.len(),
        forall|i: int| 0 <= i < r ==> name_less((#[trigger] list@[i]).name@, name@),
        forall|i: int| r < i < list@.len() ==> name_less(name@, (#[trigger] list@[i]).name@),
        r < list@.len() ==> list@[r as int].name@ == name@ || name_less(
            name@,
            list@[r as int].name@,
        ),
{
    let mut pos: usize = 0;
    while pos < list.len() && is_less(list[pos].name.as_str(), name.as_str())
        invariant
            pos <= list@.len(),
            forall|i: int| 0 <= i < pos ==> name_less((#[trigger] list@[i]).name@, name@),
        decreases list@.len() - pos,
    {
        pos = pos + 1;
    }
    if pos < list.len() {
        let ghost here = list@[pos as int].name@;
        proof {
            lemma_less_total(here, name@);
        }
        assert forall|i: int| pos < i < list@.len() implies name_less(
            name@,
            (#[trigger] list@[i]).name@,
        ) by {
            assert(name_less(list@[pos as int].name@, list@[i].name@));
            if here != name@ {
                lemma_less_transitive(name@, here, list@[i].name@);
            }
        }
    }
    pos
}

/// Whether one list is another with a path replaced or added.
spec fn path_inserted(
    before: Seq<NamedPath>,
    after: Seq<NamedPath>,
    at: int,
    item: NamedPath,
) -> bool {
    if at < before.len() && before[at].name@ == item.name@ {
        after == before.update(at, item)
    } else {
        after == before.insert(at, item)
    }
}

proof fn lemma_inserted(
    before: Seq<NamedPath>,
    after: Seq<NamedPath>,
    at: int,
    item: NamedPath,
    prior: Seq<SeedFile>,
    next: Seq<SeedFile>,
    extension: Seq<char>,
)
    requires
        paths_sorted(before),
        0 <= at <= before.len(),
        forall|i: int| 0 <= i < at ==> name_less((#[trigger] before[i]).name@, item.name@),
        forall|i: int| at < i < before.len() ==> name_less(item.name@, (#[trigger] before[i]).name@),
        at < before.len() ==> before[at].name@ == item.name@ || name_less(
            item.name@,
            before[at].name@,
        ),
        path_inserted(before, after, at, item),
        lists_paths(before, prior, extension),
        next.len() > 0,
        next.drop_last() == prior,
        next.last().provides(extension, item.name@),
        next.last().path@ == item.path@,
    ensures
        paths_sorted(after),
        lists_paths(after, next, extension),
{
    let name = item.name@;
    lemma_not_less_itself(name);
    let same = at < before.len() && before[at].name@ == name;
    assert(after[at] == item);
    assert forall|i: int, j: int| 0 <= i < j < after.len() implies name_less(
        (#[trigger] after[i]).name@,
        (#[trigger] after[j]).name@,
    ) by {
        let x = if same || i < at {
            before[i]
        } else {
            before[i - 1]
        };
        let y = if same || j < at {
            before[j]
        } else {
            before[j - 1]
        };
    }
    assert forall|i: int| 0 <= i < after.len() implies last_path(
        next,
        extension,
        (#[trigger] after[i]).name@,
    ) == Some(after[i].path@) by {
        if i != at {
            let j = if same || i < at {
                i
            } else {
                i - 1
            };
            assert(after[i] == before[j]);
            assert(before[j].name@ != name);
            assert(last_path(prior, extension, before[j].name@) == Some(before[j].path@));
        }
    }
    assert forall|other: Seq<char>| (#[trigger] last_path(next, extension, other))
        is Some implies exists|i: int|
        0 <= i < after.len() && (#[trigger] after[i]).name@ == other by {
        if other == name {
            assert(after[at].name@ == other);
        } else {
            assert(last_path(prior, extension, other) is Some);
            let j = choose|j: int| 0 <= j < before.len() && (#[trigger] before[j]).name@ == other;
            if same || j < at {
                assert(after[j].name@ == other);
            } else {
                assert(after[j + 1].name@ == other);
            }
        }
    }
}

fn index_paths(files: &Vec<SeedFile>, extension: &str) -> (r: Vec<NamedPath>)
    ensures
        paths_sorted(r@),
        lists_paths(r@, files@, extension@),
{
    let mut list: Vec<NamedPath> = Vec::new();
    for k in 0..files.len()
        invariant
            paths_sorted(list@),
            lists_paths(list@, files@.take(k as int), extension@),
    {
        let file = &files[k];
        let ghost prior = files@.take(k as int);
        let ghost next = files@.take(k + 1);
        assert(next.drop_last() =~= prior);
        assert(next.last() == *file);
        if file.has_extension(extension) {
            if let Some(stem) = &file.stem {
                let ghost before = list@;
                let item = NamedPath { name: stem.clone(), path: file.path.clone() };
                let ghost added = item;
                let pos = find_position(&list, &item.name);
                if pos < list.len() && list[pos].name == item.name {
                    list.set(pos, item);
                } else {
                    list.insert(pos, item);
                }
                proof {
                    lemma_inserted(
                        before,
                        list@,
                        pos as int,
                        added,
                        prior,
                        next,
                        extension@,
                    );
                }
            } else {
                assert forall|name: Seq<char>| #[trigger]
                    last_path(next, extension@, name) == last_path(prior, extension@, name) by {}
            }
        } else {
            assert forall|name: Seq<char>| #[trigger]
                last_path(next, extension@, name) == last_path(prior, extension@, name) by {}
        }
    }
    assert(files@.take(files@.len() as int) =~= files@);
    list
}

/// A program of the corpus. Each of its files is read once, and its contents are kept.
#[derive(Debug)]
pub struct SeedProgram {
    pub name: String,
    pub binary_path: String,
    pub text_path: String,
    pub bytes: ProgramBytes,
}

/// The contents of the files of a program, as far as they were read.
#[derive(Debug)]
pub struct ProgramBytes {
    binary: Option<Vec<u8>>,
    text: Option<Vec<u8>>,
}

/// A file of a program.
#[derive(Clone, Copy, Debug, PartialEq, Eq, Structural)]
pub enum ProgramFile {
    Binary,
    Text,
}

/// The contents of the files of a program as plain values.
pub struct Contents {
    pub binary: Option<Seq<u8>>,
    pub text: Option<Seq<u8>>,
}

impl View for ProgramBytes {
    type V = Contents;

    closed spec fn view(&self) -> Contents {
        Contents {
            binary: match self.binary {
                Some(bytes) => Some(bytes@),
                None => None,
            },
            text: match self.text {
                Some(bytes) => Some(bytes@),
                None => None,
            },
        }
    }
}

/// The contents after one more reading: what was read before stays.
pub open spec fn with_reading(c: Contents, file: ProgramFile, bytes: Seq<u8>) -> Contents {
    match file {
        ProgramFile::Binary => Contents {
            binary: Some(
                match c.binary {
                    Some(kept) => kept,
                    None => bytes,
                },
            ),
            ..c
        },
        ProgramFile::Text => Contents {
            text: Some(
                match c.text {
                    Some(kept) => kept,
                    None => bytes,
                },
            ),
            ..c
        },
    }
}

/// The name of the file that caches the inputs of a program, once its files were read.
pub open spec fn cache_name(name: Seq<char>, c: Contents) -> Option<Seq<char>> {
    match (c.binary, c.text) {
        (Some(binary), Some(text)) => Some(
            name + "-"@ + text::hex_digits(program_hash(binary, text) as nat, 16).take(8)
                + ".data"@,
        ),
        _ => None,
    }
}

/// Once the files of a program were read, reading them again changes nothing: the name of its cache
/// file stays, whatever the files hold by then.
pub proof fn cache_names_stay(name: Seq<char>, c: Contents, file: ProgramFile, bytes: Seq<u8>)
    requires
        cache_name(name, c) is Some,
    ensures
        with_reading(c, file, bytes) == c,
        cache_name(name, with_reading(c, file, bytes)) == cache_name(name, c),
{
}

/// Programs of one name with the same contents have one cache file, wherever their files are.
pub proof fn cache_names_follow_the_contents(name: Seq<char>, p: Contents, q: Contents)
    requires
        p.binary is Some && p.binary == q.binary,
        p.text is Some && p.text == q.text,
    ensures
        cache_name(name, p) is Some,
        cache_name(name, p) == cache_name(name, q),
{
}

/// The file that has to be read next, if one is missing: the binary, then the text section.
pub open spec fn missing(c: Contents) -> Option<ProgramFile> {
    match (c.binary, c.text) {
        (None, _) => Some(ProgramFile::Binary),
        (Some(_), None) => Some(ProgramFile::Text),
        (Some(_), Some(_)) => None,
    }
}

/// Whether this is the binary of a program with these contents, once both files were read.
pub open spec fn is_binary(c: Contents, r: Option<Binary>) -> bool {
    match (c.binary, c.text) {
        (Some(binary), Some(text)) => r matches Some(b) && b.wf() && b.data_bytes() == vm::aligned(
            binary,
        ) && b.text_bytes() == Some(vm::aligned(text)),
        _ => r is None,
    }
}

/// A program has no file with its text section.
#[derive(Debug)]
pub struct MissingText {
    pub name: String,
}

impl MissingText {
    /// The error as text.
    pub fn message(&self) -> (r: String)
        ensures
            r@ == "missing .text file for seed program `"@ + self.name@ + "`"@,
    {
        let mut out = String::from_str("missing .text file for seed program `");
        out.append(self.name.as_str());
        out.append("`");
        out
    }
}

/// The contents of files of which none was read.
pub open spec fn unread() -> Contents {
    Contents { binary: None, text: None }
}

/// Whether programs are those of the files: each with its last binary and its last text section,
/// sorted by name.
pub open spec fn programs_of(programs: Seq<SeedProgram>, files: Seq<SeedFile>) -> bool {
    &&& forall|i: int, j: int|
        0 <= i < j < programs.len() ==> name_less(
            (#[trigger] programs[i]).name@,
            (#[trigger] programs[j]).name@,
        )
    &&& forall|i: int|
        0 <= i < programs.len() ==> {
            &&& last_path(files, "bin"@, (#[trigger] programs[i]).name@) == Some(
                programs[i].binary_path@,
            )
            &&& last_path(files, "text"@, programs[i].name@) == Some(programs[i].text_path@)
            &&& programs[i].contents() == unread()
        }
    &&& forall|name: Seq<char>|
        (#[trigger] last_path(files, "bin"@, name)) is Some ==> exists|i: int|
            0 <= i < programs.len() && (#[trigger] programs[i]).name@ == name
}

/// Whether a name is the first among those that have a binary but no text section.
pub open spec fn first_without_text(name: Seq<char>, files: Seq<SeedFile>) -> bool {
    &&& last_path(files, "bin"@, name) is Some
    &&& last_path(files, "text"@, name) is None
    &&& forall|other: Seq<char>|
        (#[trigger] last_path(files, "bin"@, other)) is Some && name_less(other, name)
            ==> last_path(files, "text"@, other) is Some
}

fn find_path(list: &Vec<NamedPath>, name: &String) -> (r: Option<String>)
    ensures
        match r {
            Some(path) => exists|i: int|
                0 <= i < list@.len() && (#[trigger] list@[i]).name@ == name@ && list@[i].path@
                    == path@,
            None => forall|i: int| 0 <= i < list@.len() ==> (#[trigger] list@[i]).name@ != name@,
        },
{
    for i in 0..list.len()
        invariant
            forall|j: int| 0 <= j < i ==> (#[trigger] list@[j]).name@ != name@,
    {
        if list[i].name == *name {
            let path = list[i].path.clone();
            assert(list@[i as int].name@ == name@ && list@[i as int].path@ == path@);
            return Some(path);
        }
    }
    None
}

/// The content hash of a program: the standard hasher over both files, each preceded by its length.
pub open spec fn program_hash(binary: Seq<u8>, text: Seq<u8>) -> u64 {
    DefaultHasher::spec_finish(
        seq![
            vstd::bytes::spec_u64_to_le_bytes(binary.len() as u64),
            binary,
            vstd::bytes::spec_u64_to_le_bytes(text.len() as u64),
            text,
        ],
    )
}

/// Adds a length and as many bytes to a hash.
fn hash_bytes(hasher: &mut DefaultHasher, bytes: &[u8])
    ensures
        final(hasher)@ == old(hasher)@.push(
            vstd::bytes::spec_u64_to_le_bytes(bytes@.len() as u64),
        ).push(bytes@),
{
    let length = vstd::bytes::u64_to_le_bytes(bytes.len() as u64);
    hasher.write(length.as_slice());
    hasher.write(bytes);
}

proof fn lemma_leading_digits(n: nat, width: nat, tail: nat)
    ensures
        text::hex_digits(n, width + tail).take(width as int) == text::hex_digits(
            n / vstd::arithmetic::power::pow(16, tail) as nat,
            width,
        ),
        text::hex_digits(n, width + tail).len() == width + tail,
    decreases tail,
{
    vstd::arithmetic::power::lemma_pow_positive(16, tail);
    if tail == 0 {
        vstd::arithmetic::power::lemma_pow0(16);
        lemma_digit_count(n, width);
        assert(text::hex_digits(n, width).take(width as int) =~= text::hex_digits(n, width));
    } else {
        let less = (tail - 1) as nat;
        lemma_leading_digits(n / 16, width, less);
        vstd::arithmetic::power::lemma_pow_positive(16, less);
        reveal_with_fuel(vstd::arithmetic::power::pow, 2);
        assert(vstd::arithmetic::power::pow(16, tail) == 16 * vstd::arithmetic::power::pow(16, less));
        vstd::arithmetic::div_mod::lemma_div_denominator(
            n as int,
            16,
            vstd::arithmetic::power::pow(16, less),
        );
        assert(text::hex_digits(n, width + tail).take(width as int) =~= text::hex_digits(
            n / 16,
            width + less,
        ).take(width as int));
    }
}

proof fn lemma_digit_count(n: nat, width: nat)
    ensures
        text::hex_digits(n, width).len() == width,
    decreases width,
{
    if width > 0 {
        lemma_digit_count(n / 16, (width - 1) as nat);
    }
}

/// The first eight of the sixteen hexadecimal digits of a content hash.
pub fn short_hash(hash: u64) -> (r: String)
    ensures
        r@ == text::hex_digits(hash as nat, 16).take(8),
{
    let mut out = String::from_str("");
    proof {
        reveal_strlit("");
        lemma_leading_digits(hash as nat, 8, 8);
        assert(vstd::arithmetic::power::pow(16, 8) == 0x1_0000_0000) by {
            reveal_with_fuel(vstd::arithmetic::power::pow, 9);
        }
    }
    push_hex(&mut out, hash / 0x1_0000_0000, 8);
    assert(out@ =~= text::hex_digits(hash as nat, 16).take(8));
    out
}

/// The short content hash of a program.
pub fn short_program_hash(bin_bytes: &[u8], text_bytes: &[u8]) -> (r: String)
    ensures
        r@ == text::hex_digits(program_hash(bin_bytes@, text_bytes@) as nat, 16).take(8),
{
    let mut hasher = DefaultHasher::new();
    hash_bytes(&mut hasher, bin_bytes);
    hash_bytes(&mut hasher, text_bytes);
    assert(hasher@ =~= seq![
        vstd::bytes::spec_u64_to_le_bytes(bin_bytes@.len() as u64),
        bin_bytes@,
        vstd::bytes::spec_u64_to_le_bytes(text_bytes@.len() as u64),
        text_bytes@,
    ]);
    short_hash(hasher.finish())
}

impl SeedProgram {
    /// The contents of the files, as far as they were read.
    pub open spec fn contents(self) -> Contents {
        self.bytes@
    }

    /// A program with its two files, neither of which was read.
    pub fn new(name: String, binary_path: String, text_path: String) -> (r: SeedProgram)
        ensures
            r.name == name,
            r.binary_path == binary_path,
            r.text_path == text_path,
            r.contents() == unread(),
    {
        let bytes = ProgramBytes { binary: None, text: None };
        SeedProgram { name, binary_path, text_path, bytes }
    }

    /// The file that has to be read next, if one is missing: the binary, then the text section.
    pub fn missing_file(&self) -> (r: Option<ProgramFile>)
        ensures
            r == match (self.contents().binary, self.contents().text) {
                (None, _) => Some(ProgramFile::Binary),
                (Some(_), None) => Some(ProgramFile::Text),
                (Some(_), Some(_)) => None,
            },
            r == missing(self.contents()),
    {
        if self.bytes.binary.is_none() {
            Some(ProgramFile::Binary)
        } else if self.bytes.text.is_none() {
            Some(ProgramFile::Text)
        } else {
            None
        }
    }

    /// Takes what was read from a file. What was read before stays.
    pub fn keep(&mut self, file: ProgramFile, bytes: Vec<u8>)
        ensures
            final(self).name == old(self).name,
            final(self).binary_path == old(self).binary_path,
            final(self).text_path == old(self).text_path,
            final(self).contents() == with_reading(old(self).contents(), file, bytes@),
    {
        match file {
            ProgramFile::Binary => {
                if self.bytes.binary.is_none() {
                    self.bytes.binary = Some(bytes);
                }
            },
            ProgramFile::Text => {
                if self.bytes.text.is_none() {
                    self.bytes.text = Some(bytes);
                }
            },
        }
    }

    /// The programs of the files, or the first that has a binary but no text section.
    pub fn find_programs(files: &Vec<SeedFile>) -> (r: Result<Vec<SeedProgram>, MissingText>)
        ensures
            match r {
                Ok(programs) => programs_of(programs@, files@),
                Err(e) => first_without_text(e.name@, files@),
            },
    {
        let bins = index_paths(files, "bin");
        let texts = index_paths(files, "text");
        let mut programs: Vec<SeedProgram> = Vec::new();
        for k in 0..bins.len()
            invariant
                paths_sorted(bins@),
                lists_paths(bins@, files@, "bin"@),
                lists_paths(texts@, files@, "text"@),
                programs@.len() == k,
                forall|i: int|
                    0 <= i < k ==> {
                        &&& (#[trigger] programs@[i]).name@ == bins@[i].name@
                        &&& programs@[i].binary_path@ == bins@[i].path@
                        &&& programs@[i].contents() == unread()
                        &&& last_path(files@, "text"@, programs@[i].name@) == Some(
                            programs@[i].text_path@,
                        )
                    },
        {
            match find_path(&texts, &bins[k].name) {
                Some(text_path) => {
                    programs.push(
                        SeedProgram::new(
                            bins[k].name.clone(),
                            bins[k].path.clone(),
                            text_path,
                        ),
                    );
                },
                None => {
                    let ghost name = bins@[k as int].name@;
                    assert(last_path(files@, "bin"@, name) == Some(bins@[k as int].path@));
                    assert forall|other: Seq<char>|
                        (#[trigger] last_path(files@, "bin"@, other)) is Some && name_less(
                            other,
                            name,
                        ) implies last_path(files@, "text"@, other) is Some by {
                        let i = choose|i: int|
                            0 <= i < bins@.len() && (#[trigger] bins@[i]).name@ == other;
                        if i > k {
                            lemma_less_transitive(name, bins@[i].name@, name);
                        }
                        lemma_not_less_itself(name);
                        assert(programs@[i].name@ == bins@[i].name@);
                    }
                    return Err(MissingText { name: bins[k].name.clone() });
                },
            }
        }
        assert forall|name: Seq<char>| (#[trigger] last_path(files@, "bin"@, name))
            is Some implies exists|i: int|
            0 <= i < programs@.len() && (#[trigger] programs@[i]).name@ == name by {
            let i = choose|i: int| 0 <= i < bins@.len() && (#[trigger] bins@[i]).name@ == name;
            assert(programs@[i].name@ == name);
        }
        assert forall|i: int, j: int| 0 <= i < j < programs@.len() implies name_less(
            (#[trigger] programs@[i]).name@,
            (#[trigger] programs@[j]).name@,
        ) by {
            assert(name_less(bins@[i].name@, bins@[j].name@));
        }
        Ok(programs)
    }

    /// The binary of the program, once its files were read.
    pub fn binary(&self) -> (r: Option<Binary>)
        ensures
            match (self.contents().binary, self.contents().text) {
                (Some(binary), Some(text)) => r matches Some(b) && b.wf() && b.data_bytes()
                    == vm::aligned(binary) && b.text_bytes() == Some(vm::aligned(text)),
                _ => r is None,
            },
            is_binary(self.contents(), r),
    {
        match (&self.bytes.binary, &self.bytes.text) {
            (Some(binary), Some(text)) => Some(
                Binary::new(binary.as_slice(), Some(text.as_slice())),
            ),
            _ => None,
        }
    }

    /// The name of the file that caches the inputs of the program, once its files were read.
    pub fn cache_file_name(&self) -> (r: Option<String>)
        ensures
            match cache_name(self.name@, self.contents()) {
                Some(name) => r matches Some(s) && s@ == name,
                None => r is None,
            },
    {
        match (&self.bytes.binary, &self.bytes.text) {
            (Some(binary), Some(text)) => {
                let mut out = self.name.clone();
                out.append("-");
                out.append(short_program_hash(binary.as_slice(), text.as_slice()).as_str());
                out.append(".data");
                Some(out)
            },
            _ => None,
        }
    }
}

/// There is one list of programs for given files.
pub proof fn programs_are_unique(a: Seq<SeedProgram>, b: Seq<SeedProgram>, files: Seq<SeedFile>)
    requires
        programs_of(a, files),
        programs_of(b, files),
    ensures
        a.len() == b.len(),
        forall|i: int| 0 <= i < a.len() ==> (#[trigger] a[i]).name@ == b[i].name@,
        forall|i: int| 0 <= i < a.len() ==> (#[trigger] a[i]).binary_path@ == b[i].binary_path@,
        forall|i: int| 0 <= i < a.len() ==> (#[trigger] a[i]).text_path@ == b[i].text_path@,
{
    assert forall|i: int| 0 <= i < a.len() implies i < b.len() && (#[trigger] a[i]).name@
        == b[i].name@ by {
        lemma_names_agree(a, b, files, i);
    }
    if a.len() > 0 {
        lemma_names_agree(a, b, files, a.len() - 1);
    }
    if b.len() > 0 {
        lemma_names_agree(b, a, files, b.len() - 1);
    }
}

proof fn lemma_names_agree(
    a: Seq<SeedProgram>,
    b: Seq<SeedProgram>,
    files: Seq<SeedFile>,
    i: int,
)
    requires
        programs_of(a, files),
        programs_of(b, files),
        0 <= i < a.len(),
    ensures
        i < b.len(),
        a[i].name@ == b[i].name@,
    decreases i,
{
    let name = a[i].name@;
    assert(last_path(files, "bin"@, a[i].name@) is Some);
    let j = choose|j: int| 0 <= j < b.len() && (#[trigger] b[j]).name@ == name;
    lemma_not_less_itself(name);
    if j < i {
        lemma_names_agree(a, b, files, j);
        assert(name_less(a[j].name@, a[i].name@));
    } else if j > i {
        let other = b[i].name@;
        assert(last_path(files, "bin"@, b[i].name@) is Some);
        let k = choose|k: int| 0 <= k < a.len() && (#[trigger] a[k]).name@ == other;
        assert(name_less(b[i].name@, b[j].name@));
        if k < i {
            lemma_names_agree(a, b, files, k);
            assert(name_less(b[k].name@, b[i].name@));
            lemma_not_less_itself(other);
        } else if k > i {
            assert(name_less(a[i].name@, a[k].name@));
            lemma_less_transitive(name, other, name);
        }
    }
}

/// The path of a program's file is that of the last file of this name and extension.
pub proof fn last_paths_are_those_of_the_last_file(
    files: Seq<SeedFile>,
    extension: Seq<char>,
    name: Seq<char>,
)
    ensures
        last_path(files, extension, name) is None <==> (forall|i: int|
            0 <= i < files.len() ==> !(#[trigger] files[i]).provides(extension, name)),
        last_path(files, extension, name) matches Some(path) ==> exists|i: int|
            0 <= i < files.len() && (#[trigger] files[i]).is_file && (files[i].extension matches
                Some(e) && e@ == extension) && (files[i].stem matches Some(s) && s@ == name)
                && files[i].path@ == path && (forall|j: int|
                i < j < files.len() ==> !(#[trigger] files[j]).provides(extension, name)),
    decreases files.len(),
{
    if files.len() > 0 {
        let before = files.drop_last();
        let last = files.len() - 1;
        last_paths_are_those_of_the_last_file(before, extension, name);
        if files[last].provides(extension, name) {
            assert(last_path(files, extension, name) == Some(files[last].path@));
        } else if last_path(before, extension, name) is None {
            assert forall|i: int| 0 <= i < files.len() implies !(
            #[trigger] files[i]).provides(extension, name) by {
                if i < last {
                    assert(before[i] == files[i]);
                }
            }
        } else {
            let path = last_path(before, extension, name)->0;
            let i = choose|i: int|
                0 <= i < before.len() && (#[trigger] before[i]).is_file && (
                before[i].extension matches Some(e) && e@ == extension) && (
                before[i].stem matches Some(s) && s@ == name) && before[i].path@ == path && (
                forall|j: int|
                    i < j < before.len() ==> !(#[trigger] before[j]).provides(extension, name));
            assert(files[i] == before[i]);
            assert forall|j: int| i < j < files.len() implies !(#[trigger] files[j]).provides(
                extension,
                name,
            ) by {
                if j < last {
                    assert(files[j] == before[j]);
                }
            }
            assert(files[i].provides(extension, name));
        }
    }
}

/// One name comes before another exactly where it begins the other, or has the smaller character at
/// the first place where they differ.
pub proof fn names_are_ordered_at_their_first_difference(a: Seq<char>, b: Seq<char>, k: int)
    requires
        0 <= k <= a.len(),
        k <= b.len(),
        a.take(k) == b.take(k),
        k < a.len() && k < b.len() ==> a[k] != b[k],
    ensures
        k == b.len() ==> !name_less(a, b),
        k == a.len() && k < b.len() ==> name_less(a, b),
        k < a.len() && k < b.len() ==> (name_less(a, b) <==> (a[k] as int) < (b[k] as int)),
    decreases k,
{
    if k > 0 {
        assert(a.take(k)[0] == a[0] && b.take(k)[0] == b[0]);
        assert(a.skip(1).take(k - 1) =~= a.take(k).skip(1));
        assert(b.skip(1).take(k - 1) =~= b.take(k).skip(1));
        names_are_ordered_at_their_first_difference(a.skip(1), b.skip(1), k - 1);
        assert(a[0] == b[0]);
        assert(name_less(a, b) == name_less(a.skip(1), b.skip(1)));
    }
}

/// The list of programs is sorted, and every binary is the file of a program in it.
pub proof fn binaries_have_their_program(programs: Seq<SeedProgram>, files: Seq<SeedFile>, f: int)
    requires
        programs_of(programs, files),
        0 <= f < files.len(),
        files[f].is_file,
        files[f].extension matches Some(e) && e@ == "bin"@,
        files[f].stem is Some,
    ensures
        exists|i: int|
            0 <= i < programs.len() && (#[trigger] programs[i]).name@ == files[f].stem->0@,
{
    let name = files[f].stem->0@;
    last_paths_are_those_of_the_last_file(files, "bin"@, name);
    assert(files[f].provides("bin"@, name));
    assert(last_path(files, "bin"@, name) is Some);
}

/// Every program in the list has a binary and a text section of its name among the files, and none of
/// them was read yet.
pub proof fn programs_have_their_files(programs: Seq<SeedProgram>, files: Seq<SeedFile>, i: int)
    requires
        programs_of(programs, files),
        0 <= i < programs.len(),
    ensures
        exists|f: int|
            0 <= f < files.len() && (#[trigger] files[f]).provides("bin"@, programs[i].name@)
                && files[f].path@ == programs[i].binary_path@,
        exists|f: int|
            0 <= f < files.len() && (#[trigger] files[f]).provides("text"@, programs[i].name@)
                && files[f].path@ == programs[i].text_path@,
        programs[i].contents().binary is None,
        programs[i].contents().text is None,
{
    last_paths_are_those_of_the_last_file(files, "bin"@, programs[i].name@);
    last_paths_are_those_of_the_last_file(files, "text"@, programs[i].name@);
    assert(last_path(files, "bin"@, programs[i].name@) is Some);
    let p = programs[i].binary_path@;
    let f = choose|f: int|
        0 <= f < files.len() && (#[trigger] files[f]).is_file && (files[f].extension matches Some(e)
            && e@ == "bin"@) && (files[f].stem matches Some(s) && s@ == programs[i].name@)
            && files[f].path@ == p && (forall|j: int|
            f < j < files.len() ==> !(#[trigger] files[j]).provides("bin"@, programs[i].name@));
    assert(files[f].provides("bin"@, programs[i].name@));
    let q = programs[i].text_path@;
    let g = choose|g: int|
        0 <= g < files.len() && (#[trigger] files[g]).is_file && (files[g].extension matches Some(e)
            && e@ == "text"@) && (files[g].stem matches Some(s) && s@ == programs[i].name@)
            && files[g].path@ == q && (forall|j: int|
            g < j < files.len() ==> !(#[trigger] files[j]).provides("text"@, programs[i].name@));
    assert(files[g].provides("text"@, programs[i].name@));
}

/// A program is reported for want of its text section exactly where it has a binary and no text
/// section, so that a corpus in which every binary has one is never refused.
pub proof fn complete_programs_are_not_refused(name: Seq<char>, files: Seq<SeedFile>)
    requires
        first_without_text(name, files),
    ensures
        exists|f: int| 0 <= f < files.len() && (#[trigger] files[f]).provides("bin"@, name),
        forall|f: int| 0 <= f < files.len() ==> !(#[trigger] files[f]).provides("text"@, name),
{
    last_paths_are_those_of_the_last_file(files, "bin"@, name);
    last_paths_are_those_of_the_last_file(files, "text"@, name);
    assert(last_path(files, "bin"@, name) is Some);
}

/// Reading the file that is missing, as often as one is missing, reads the binary and then the text
/// section, each as it was found, and then none is missing.
pub proof fn missing_files_are_read_in_turn(binary: Seq<u8>, text: Seq<u8>, later: Seq<u8>)
    ensures
        missing(unread()) == Some(ProgramFile::Binary),
        missing(with_reading(unread(), ProgramFile::Binary, binary)) == Some(ProgramFile::Text),
        missing(
            with_reading(
                with_reading(unread(), ProgramFile::Binary, binary),
                ProgramFile::Text,
                text,
            ),
        ) is None,
        with_reading(
            with_reading(unread(), ProgramFile::Binary, binary),
            ProgramFile::Text,
            text,
        ) == (Contents { binary: Some(binary), text: Some(text) }),
        with_reading(
            with_reading(unread(), ProgramFile::Text, text),
            ProgramFile::Binary,
            binary,
        ) == (Contents { binary: Some(binary), text: Some(text) }),
        with_reading(
            with_reading(unread(), ProgramFile::Binary, binary),
            ProgramFile::Binary,
            later,
        ) == with_reading(unread(), ProgramFile::Binary, binary),
        with_reading(
            with_reading(unread(), ProgramFile::Text, text),
            ProgramFile::Text,
            later,
        ) == with_reading(unread(), ProgramFile::Text, text),
{
}

/// A program can be run once both files were read: what is loaded begins with the binary, what is
/// decoded with the text section, and only zeros are added to either.
pub proof fn programs_run_what_was_read(c: Contents, r: Option<Binary>, i: int)
    requires
        is_binary(c, r),
    ensures
        r is Some <==> c.binary is Some && c.text is Some,
        (r matches Some(b) && 0 <= i < c.binary->0.len()) ==> r->0.data_bytes()[i] == c.binary->0[i],
        r matches Some(b) ==> b.text_bytes() is Some,
        (r matches Some(b) && 0 <= i < c.text->0.len()) ==> r->0.text_bytes()->0[i] == c.text->0[i],
        (r matches Some(b) && c.binary->0.len() <= i < r->0.data_bytes().len())
            ==> r->0.data_bytes()[i] == 0,
{
}

/// The name of a cache file begins with that of the program, and eight characters of a hash stand
/// between it and the extension.
pub proof fn cache_files_are_named_after_their_program(name: Seq<char>, c: Contents)
    requires
        c.binary is Some,
        c.text is Some,
    ensures
        cache_name(name, c) matches Some(file) && {
            &&& file.len() == name.len() + 1 + 8 + 5
            &&& file.take(name.len() as int) == name
            &&& file[name.len() as int] == '-'
            &&& file.skip(name.len() as int + 9) == ".data"@
        },
{
    reveal_strlit("-");
    reveal_strlit(".data");
    let file = cache_name(name, c)->0;
    let hash = text::hex_digits(program_hash(c.binary->0, c.text->0) as nat, 16);
    lemma_digit_count(program_hash(c.binary->0, c.text->0) as nat, 16);
    assert(hash.len() == 16);
    assert(file.take(name.len() as int) =~= name);
    assert(file.skip(name.len() as int + 9) =~= ".data"@);
}

} // verus!

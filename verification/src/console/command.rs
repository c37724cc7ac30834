//! Console I/O traits, command-line parsing and the command history.
use vstd::prelude::*;
use vstd::string::*;
use vstd::utf8::*;
use crate::console::text::{next_word, words, words_from};

verus! {

/// The most arguments a command line may carry after the program name.
pub const MAX_ARGS: usize = 8;
/// How many lines the history keeps.
pub const HISTORY_CAPACITY: usize = 16;
/// How many bytes of a line the history keeps.
pub const HISTORY_LINE_BYTES: usize = 128;
/// The time budget, in milliseconds, for reaching the boot prompt.
pub const BOOT_PROMPT_BUDGET_MS: u64 = 1500;

/// Why a console command could not run.
#[derive(Clone, Copy, Debug, PartialEq, Eq, Structural)]
pub enum ConsoleError {
    Empty,
    TooManyArgs,
    UnknownProgram,
    SpawnFailed,
    WaitFailed,
}

/// A line-oriented text sink.
pub trait ConsoleWriter {
    /// Whether `lines` is the record of what the writer was given. A writer
    /// that does not define it is promised nothing of its lines.
    open spec fn records(&self) -> bool {
        false
    }

    /// The lines written so far, oldest first.
    open spec fn lines(&self) -> Seq<Seq<char>> {
        Seq::empty()
    }

    /// Writes one line.
    fn write_str(&mut self, s: &str)
        ensures
            old(self).records() ==> final(self).records() && final(self).lines() == old(self).lines().push(s@),
    ;
}

/// Whether a writer that went from `before` to `after` was given the lines
/// `ls` (for a writer that keeps a record).
pub open spec fn wrote<W: ConsoleWriter>(before: W, after: W, ls: Seq<Seq<char>>) -> bool {
    before.records() ==> after.records() && after.lines() == before.lines() + ls
}

/// A writer that keeps every line in memory.
pub struct LineBuffer {
    buffer: Vec<String>,
}

impl LineBuffer {
    /// An empty buffer.
    pub fn new() -> (b: Self)
        ensures
            b.records(),
            b.lines() == Seq::<Seq<char>>::empty(),
    {
        let b = LineBuffer { buffer: Vec::new() };
        assert(texts(b.buffer@) =~= Seq::<Seq<char>>::empty());
        b
    }

    /// The lines written, oldest first.
    pub fn contents(&self) -> (r: &Vec<String>)
        ensures
            texts(r@) == self.lines(),
    {
        &self.buffer
    }
}

impl ConsoleWriter for LineBuffer {
    open spec fn records(&self) -> bool {
        true
    }

    closed spec fn lines(&self) -> Seq<Seq<char>> {
        texts(self.buffer@)
    }

    fn write_str(&mut self, s: &str) {
        push_line(&mut self.buffer, s);
    }
}

/// The text of each string.
pub open spec fn texts(v: Seq<String>) -> Seq<Seq<char>> {
    v.map_values(|s: String| s@)
}

/// Writes `lines` to `out`, in order.
pub fn write_lines<W: ConsoleWriter>(out: &mut W, lines: &Vec<String>)
    ensures
        wrote(*old(out), *final(out), texts(lines@)),
{
    let mut i: usize = 0;
    while i < lines.len()
        invariant
            i <= lines@.len(),
            wrote(*old(out), *out, texts(lines@).subrange(0, i as int)),
        decreases lines@.len() - i,
    {
        let ghost before = *out;
        out.write_str(lines[i].as_str());
        assert(texts(lines@).subrange(0, i + 1) =~= texts(lines@).subrange(0, i as int).push(lines@[i as int]@));
        i = i + 1;
    }
    assert(texts(lines@).subrange(0, lines@.len() as int) =~= texts(lines@));
}

/// A vector holding one string with the text of `s`.
pub fn one_line(s: &str) -> (v: Vec<String>)
    ensures
        texts(v@) == seq![s@],
{
    let mut v: Vec<String> = Vec::new();
    v.push(String::from_str(s));
    assert(texts(v@) =~= seq![s@]);
    v
}

/// Appends a line with the text of `s` to `v`.
pub fn push_line(v: &mut Vec<String>, s: &str)
    ensures
        texts(final(v)@) == texts(old(v)@).push(s@),
{
    v.push(String::from_str(s));
    assert(texts(v@) =~= texts(old(v)@).push(s@));
}

/// A line-oriented text source.
pub trait ConsoleReader {
    /// Reads one line into `buf`, returning its length, or `None` when no
    /// input is available.
    fn read_line(&mut self, buf: &mut [u8]) -> Option<usize>;
}

/// A command line split into its program and arguments.
#[derive(Clone, Copy, Debug)]
pub struct ParsedCommand<'a> {
    pub program: &'a str,
    args: [&'a str; 8],
    argc: usize,
}

impl<'a> ParsedCommand<'a> {
    /// The program name.
    pub closed spec fn program_word(self) -> Seq<char> {
        self.program@
    }

    /// The arguments, in order.
    pub closed spec fn arg_words(self) -> Seq<Seq<char>> {
        Seq::new(if self.argc <= 8 { self.argc as nat } else { 8 }, |i: int| self.args@[i]@)
    }

    /// The program name, for verified callers outside this module.
    pub(crate) fn program_name(&self) -> (r: &'a str)
        ensures
            r@ == self.program_word(),
    {
        self.program
    }

    /// The arguments after the program name.
    pub fn args(&self) -> (r: &[&'a str])
        ensures
            r@.len() == self.arg_words().len(),
            forall|i: int| 0 <= i < r@.len() ==> (#[trigger] r@[i])@ == self.arg_words()[i],
    {
        let k: usize = if self.argc <= 8 { self.argc } else { 8 };
        vstd::slice::slice_subrange(self.args.as_slice(), 0, k)
    }
}

/// Splits `line` at ASCII whitespace into a program name and at most
/// `MAX_ARGS` arguments.
pub fn parse_command_line(line: &str) -> (r: Result<ParsedCommand<'_>, ConsoleError>)
    ensures
        words(line@).len() == 0 ==> r == Err::<ParsedCommand<'_>, ConsoleError>(ConsoleError::Empty),
        words(line@).len() > MAX_ARGS + 1 ==> r == Err::<ParsedCommand<'_>, ConsoleError>(ConsoleError::TooManyArgs),
        1 <= words(line@).len() <= MAX_ARGS + 1 ==> (r matches Ok(p) && p.program_word() == words(line@)[0]
            && p.arg_words() == words(line@).subrange(1, words(line@).len() as int)),
{
    let n = line.unicode_len();
    let (program, mut i) = match next_word(line, n, 0) {
        None => return Err(ConsoleError::Empty),
        Some(x) => x,
    };
    let mut args: [&str; 8] = [""; 8];
    let mut argc: usize = 0;
    loop
        invariant
            n == line@.len(),
            i <= n,
            argc <= 8,
            words(line@) == seq![program@] + Seq::new(argc as nat, |k: int| args@[k]@) + words_from(line@, i as int),
        ensures
            argc <= 8,
            words(line@) == seq![program@] + Seq::new(argc as nat, |k: int| args@[k]@),
        decreases n - i,
    {
        match next_word(line, n, i) {
            None => {
                assert(words(line@) =~= seq![program@] + Seq::new(argc as nat, |k: int| args@[k]@));
                break;
            },
            Some((w, e)) => {
                if argc >= 8 {
                    assert(words(line@).len() > 9);
                    return Err(ConsoleError::TooManyArgs);
                }
                let ghost before = Seq::new(argc as nat, |k: int| args@[k]@);
                args[argc] = w;
                argc = argc + 1;
                assert(Seq::new(argc as nat, |k: int| args@[k]@) =~= before.push(w@));
                assert(words(line@) =~= seq![program@] + Seq::new(argc as nat, |k: int| args@[k]@) + words_from(line@, e as int));
                i = e;
            },
        }
    }
    let p = ParsedCommand { program, args, argc };
    assert(p.arg_words() =~= words(line@).subrange(1, words(line@).len() as int));
    Ok(p)
}

/// What the history keeps of a line: the line itself when it fits in 128
/// bytes of UTF-8; else its first 128 bytes when they end on a character
/// boundary; else nothing printable.
pub open spec fn history_entry(line: Seq<char>) -> Option<Seq<char>> {
    let b = encode_utf8(line);
    if b.len() <= HISTORY_LINE_BYTES {
        Some(line)
    } else if is_char_boundary(b, HISTORY_LINE_BYTES as int) {
        Some(decode_utf8(b.subrange(0, HISTORY_LINE_BYTES as int)))
    } else {
        None
    }
}

/// The last `n` items of `s` (all of them when there are fewer).
pub open spec fn keep_last<T>(s: Seq<T>, n: nat) -> Seq<T> {
    if s.len() > n { s.subrange(s.len() - n, s.len() as int) } else { s }
}

/// The entries that pushing `lines` in order records (empty lines are
/// not recorded).
pub open spec fn entries_of_lines(lines: Seq<Seq<char>>) -> Seq<Option<Seq<char>>>
    decreases lines.len(),
{
    if lines.len() == 0 {
        Seq::empty()
    } else {
        let rest = entries_of_lines(lines.drop_last());
        if lines.last().len() > 0 { rest.push(history_entry(lines.last())) } else { rest }
    }
}

/// The history after pushing `lines` in order onto `h`, one `push` each.
pub open spec fn history_after_pushes(h: Seq<Option<Seq<char>>>, lines: Seq<Seq<char>>) -> Seq<Option<Seq<char>>>
    decreases lines.len(),
{
    if lines.len() == 0 {
        h
    } else {
        let prev = history_after_pushes(h, lines.drop_last());
        if lines.last().len() > 0 {
            keep_last(prev.push(history_entry(lines.last())), HISTORY_CAPACITY as nat)
        } else {
            prev
        }
    }
}

proof fn lemma_keep_last_push<T>(s: Seq<T>, x: T, n: nat)
    requires
        n >= 1,
    ensures
        keep_last(keep_last(s, n).push(x), n) == keep_last(s.push(x), n),
{
    assert(keep_last(keep_last(s, n).push(x), n) =~= keep_last(s.push(x), n));
}

/// A history that starts empty holds the last `HISTORY_CAPACITY` entries
/// of the non-empty lines pushed, oldest first.
pub proof fn lemma_history_keeps_last(lines: Seq<Seq<char>>)
    ensures
        history_after_pushes(Seq::empty(), lines) == keep_last(entries_of_lines(lines), HISTORY_CAPACITY as nat),
    decreases lines.len(),
{
    if lines.len() > 0 {
        lemma_history_keeps_last(lines.drop_last());
        if lines.last().len() > 0 {
            lemma_keep_last_push(entries_of_lines(lines.drop_last()), history_entry(lines.last()), HISTORY_CAPACITY as nat);
        }
    } else {
        assert(keep_last(Seq::<Option<Seq<char>>>::empty(), HISTORY_CAPACITY as nat) =~= Seq::<Option<Seq<char>>>::empty());
    }
}

/// The non-empty lines of `lines`, in order.
pub open spec fn nonempty_lines(lines: Seq<Seq<char>>) -> Seq<Seq<char>>
    decreases lines.len(),
{
    if lines.len() == 0 {
        Seq::empty()
    } else {
        let rest = nonempty_lines(lines.drop_last());
        if lines.last().len() > 0 { rest.push(lines.last()) } else { rest }
    }
}

/// Whether every line fits a history entry whole.
pub open spec fn lines_fit(lines: Seq<Seq<char>>) -> bool {
    forall|i: int| 0 <= i < lines.len() ==> encode_utf8(#[trigger] lines[i]).len() <= HISTORY_LINE_BYTES
}

proof fn lemma_entries_of_fitting_lines(lines: Seq<Seq<char>>)
    requires
        lines_fit(lines),
    ensures
        entries_of_lines(lines) == nonempty_lines(lines).map_values(|l: Seq<char>| Some(l)),
    decreases lines.len(),
{
    if lines.len() > 0 {
        let p = lines.drop_last();
        assert forall|i: int| 0 <= i < p.len() implies encode_utf8(#[trigger] p[i]).len() <= HISTORY_LINE_BYTES by {
            assert(p[i] == lines[i]);
        }
        lemma_entries_of_fitting_lines(p);
        assert(encode_utf8(lines[lines.len() - 1]).len() <= HISTORY_LINE_BYTES);
        if lines.last().len() > 0 {
            assert(nonempty_lines(p).push(lines.last()).map_values(|l: Seq<char>| Some(l))
                =~= nonempty_lines(p).map_values(|l: Seq<char>| Some(l)).push(Some(lines.last())));
        }
    } else {
        assert(nonempty_lines(lines).map_values(|l: Seq<char>| Some(l)) =~= Seq::<Option<Seq<char>>>::empty());
    }
}

proof fn lemma_printable_somes(s: Seq<Seq<char>>)
    ensures
        printable(s.map_values(|l: Seq<char>| Some(l))) == s,
    decreases s.len(),
{
    if s.len() > 0 {
        lemma_printable_somes(s.drop_last());
        assert(s.map_values(|l: Seq<char>| Some(l)).drop_last() =~= s.drop_last().map_values(|l: Seq<char>| Some(l)));
        assert(s.drop_last() + seq![s.last()] =~= s);
    } else {
        assert(s.map_values(|l: Seq<char>| Some(l)) =~= Seq::<Option<Seq<char>>>::empty());
        assert(s =~= Seq::<Seq<char>>::empty());
    }
}

/// Pushing lines that each fit an entry whole onto an empty history, a
/// dump then writes "history:" and the last `HISTORY_CAPACITY` non-empty
/// lines, oldest first.
pub proof fn lemma_history_dump_after_pushes(lines: Seq<Seq<char>>)
    requires
        lines_fit(lines),
    ensures
        seq!["history:"@] + printable(history_after_pushes(Seq::empty(), lines))
            == seq!["history:"@] + keep_last(nonempty_lines(lines), HISTORY_CAPACITY as nat),
{
    lemma_history_keeps_last(lines);
    lemma_entries_of_fitting_lines(lines);
    let ne = nonempty_lines(lines);
    let f = |l: Seq<char>| Some(l);
    assert(keep_last(ne.map_values(f), HISTORY_CAPACITY as nat) =~= keep_last(ne, HISTORY_CAPACITY as nat).map_values(f));
    lemma_printable_somes(keep_last(ne, HISTORY_CAPACITY as nat));
}

/// The printable entries, in order.
pub open spec fn printable(s: Seq<Option<Seq<char>>>) -> Seq<Seq<char>>
    decreases s.len(),
{
    if s.len() == 0 {
        Seq::empty()
    } else {
        printable(s.drop_last()) + match s.last() {
            Some(x) => seq![x],
            None => Seq::empty(),
        }
    }
}

/// The most recent `HISTORY_CAPACITY` non-empty command lines.
pub struct ConsoleHistory {
    entries: Vec<Option<String>>,
}

impl View for ConsoleHistory {
    type V = Seq<Option<Seq<char>>>;

    closed spec fn view(&self) -> Seq<Option<Seq<char>>> {
        self.entries@.map_values(|e: Option<String>| entry_view(e))
    }
}

/// The text of a stored entry.
pub open spec fn entry_view(e: Option<String>) -> Option<Seq<char>> {
    match e {
        Some(s) => Some(s@),
        None => None,
    }
}

fn entry_for(line: &str) -> (r: Option<String>)
    ensures
        match r {
            Some(s) => history_entry(line@) == Some(s@),
            None => history_entry(line@) is None,
        },
{
    proof {
        encode_utf8_valid_utf8(line@);
    }
    let bytes = line.as_bytes();
    if bytes.len() <= HISTORY_LINE_BYTES {
        Some(line.to_owned())
    } else if line.is_char_boundary(HISTORY_LINE_BYTES) {
        let (head, _tail) = line.split_at(HISTORY_LINE_BYTES);
        proof {
            encode_utf8_decode_utf8(head@);
            assert(encode_utf8(head@) =~= encode_utf8(line@).subrange(0, HISTORY_LINE_BYTES as int));
        }
        Some(head.to_owned())
    } else {
        None
    }
}

impl ConsoleHistory {
    #[verifier::type_invariant]
    spec fn bounded(self) -> bool {
        self.entries@.len() <= HISTORY_CAPACITY
    }

    /// An empty history.
    pub fn new() -> (h: Self)
        ensures
            h@ == Seq::<Option<Seq<char>>>::empty(),
    {
        let h = ConsoleHistory { entries: Vec::new() };
        assert(h@ =~= Seq::<Option<Seq<char>>>::empty());
        h
    }

    /// Records `line` unless it is empty, dropping the oldest entry when
    /// the history is full.
    pub fn push(&mut self, line: &str)
        ensures
            line@.len() == 0 ==> final(self)@ == old(self)@,
            line@.len() > 0 ==> final(self)@ == keep_last(old(self)@.push(history_entry(line@)), HISTORY_CAPACITY as nat),
    {
        proof {
            use_type_invariant(&*self);
        }
        if line.is_empty() {
            return;
        }
        let entry = entry_for(line);
        let ghost e = entry_view(entry);
        let ghost before = self@;
        let mut entries: Vec<Option<String>> = Vec::new();
        std::mem::swap(&mut entries, &mut self.entries);
        if entries.len() >= HISTORY_CAPACITY {
            entries.remove(0);
        }
        entries.push(entry);
        self.entries = entries;
        assert(self@ =~= keep_last(before.push(e), HISTORY_CAPACITY as nat));
    }

    /// "history:" and then each printable entry, oldest first.
    pub fn dump_lines(&self) -> (v: Vec<String>)
        ensures
            texts(v@) == seq!["history:"@] + printable(self@),
    {
        let mut v = one_line("history:");
        let mut i: usize = 0;
        while i < self.entries.len()
            invariant
                i <= self.entries@.len(),
                texts(v@) == seq!["history:"@] + printable(self@.subrange(0, i as int)),
            decreases self.entries@.len() - i,
        {
            match &self.entries[i] {
                Some(s) => push_line(&mut v, s.as_str()),
                None => {},
            }
            assert(self@.subrange(0, i + 1).drop_last() =~= self@.subrange(0, i as int));
            i = i + 1;
        }
        assert(self@.subrange(0, self.entries@.len() as int) =~= self@);
        v
    }

    /// Writes the lines of `dump_lines`.
    pub fn dump<W: ConsoleWriter>(&self, out: &mut W)
        ensures
            wrote(*old(out), *final(out), seq!["history:"@] + printable(self@)),
    {
        let lines = self.dump_lines();
        write_lines(out, &lines);
    }
}

impl Default for ConsoleHistory {
    fn default() -> (h: Self)
        ensures
            h@ == Seq::<Option<Seq<char>>>::empty(),
    {
        Self::new()
    }
}

} // verus!

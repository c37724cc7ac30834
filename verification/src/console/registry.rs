//! Programs the console can run, and the registry that finds them by name.
use vstd::prelude::*;
use vstd::string::*;
use crate::console::command::{one_line, parse_command_line, push_line, texts, write_lines, wrote, ConsoleError, ConsoleWriter, MAX_ARGS};
use crate::console::text::{decimal, decimal_string, str_eq, strs_view, words};

verus! {

/// A program's ABI version.
#[derive(Clone, Copy, Debug, PartialEq, Eq, Structural)]
pub struct ProgramAbi {
    pub major: u16,
    pub minor: u16,
}

/// What a program says about itself.
#[derive(Clone, Copy, Debug, PartialEq, Eq)]
pub struct ProgramDescriptor<'a> {
    pub name: &'a str,
    pub version: &'a str,
    pub abi: ProgramAbi,
    pub summary: &'a str,
}

/// The text of a descriptor.
pub struct DescriptorView {
    pub name: Seq<char>,
    pub version: Seq<char>,
    pub abi: ProgramAbi,
    pub summary: Seq<char>,
}

impl<'a> View for ProgramDescriptor<'a> {
    type V = DescriptorView;

    open spec fn view(&self) -> DescriptorView {
        DescriptorView { name: self.name@, version: self.version@, abi: self.abi, summary: self.summary@ }
    }
}

/// A program the console can run.
pub trait Program {
    /// What `descriptor` returns.
    spec fn describe(&self) -> DescriptorView;

    /// The program's name, version, ABI and summary.
    fn descriptor(&self) -> (d: ProgramDescriptor<'_>)
        ensures
            d@ == self.describe(),
    ;

    /// The exit code of a run with `args` and the lines it writes, where
    /// the program says (`None`: it does not).
    open spec fn execute_outcome(&self, args: Seq<Seq<char>>) -> Option<(i32, Seq<Seq<char>>)> {
        None
    }

    /// Runs the program with `args`, writing to `out`; returns its exit
    /// code. A run leaves the program's description as it was.
    fn execute<W: ConsoleWriter>(&mut self, args: &[&str], out: &mut W) -> (code: i32)
        ensures
            final(self).describe() == old(self).describe(),
            old(out).records() ==> final(out).records(),
            old(self).execute_outcome(strs_view(args@)) matches Some((c, ls)) ==> code == c && wrote(*old(out), *final(out), ls),
    ;
}

/// Whether program `i` of `ps` is named `name`.
pub open spec fn named<P: Program>(ps: Seq<P>, name: Seq<char>, i: int) -> bool {
    0 <= i < ps.len() && ps[i].describe().name == name
}

/// The first program of `ps` named `name`.
pub open spec fn first_named<P: Program>(ps: Seq<P>, name: Seq<char>) -> Option<int> {
    if exists|i: int| named(ps, name, i) {
        Some(choose|i: int| named(ps, name, i) && forall|j: int| 0 <= j < i ==> !named(ps, name, j))
    } else {
        None
    }
}

proof fn lemma_first_named<P: Program>(ps: Seq<P>, name: Seq<char>, i: int)
    requires
        named(ps, name, i),
        forall|j: int| 0 <= j < i ==> !named(ps, name, j),
    ensures
        first_named(ps, name) == Some(i),
{
    let c = choose|c: int| named(ps, name, c) && forall|j: int| 0 <= j < c ==> !named(ps, name, j);
    assert(named(ps, name, c) && forall|j: int| 0 <= j < c ==> !named(ps, name, j));
    if c < i {
        assert(!named(ps, name, c));
    } else if c > i {
        assert(!named(ps, name, i));
    }
}

/// "programs:" and then the name of each of `ps`.
pub open spec fn program_listing_of<P: Program>(ps: Seq<P>) -> Seq<Seq<char>> {
    seq!["programs:"@] + names(ps)
}

/// The help lines of the first of `ps` named `name`, if any.
pub open spec fn program_help_of<P: Program>(ps: Seq<P>, name: Seq<char>) -> Option<Seq<Seq<char>>> {
    match first_named(ps, name) {
        None => None,
        Some(i) => Some(help_lines(ps[i].describe())),
    }
}

/// Programs with the same descriptions are listed and found alike.
pub proof fn lemma_same_descriptions<P: Program>(a: Seq<P>, b: Seq<P>)
    requires
        a.len() == b.len(),
        forall|j: int| 0 <= j < a.len() ==> #[trigger] a[j].describe() == b[j].describe(),
    ensures
        names(a) == names(b),
        program_listing_of(a) == program_listing_of(b),
        forall|name: Seq<char>| #[trigger] first_named(a, name) == first_named(b, name),
        forall|name: Seq<char>| #[trigger] program_help_of(a, name) == program_help_of(b, name),
{
    assert(names(a) =~= names(b));
    assert forall|name: Seq<char>| #[trigger] program_help_of(a, name) == program_help_of(b, name) by {
        lemma_same_first_named(a, b, name);
        match first_named(a, name) {
            Some(i) => {
                assert(a[i].describe() == b[i].describe());
            },
            None => {},
        }
    }
    assert forall|name: Seq<char>| #[trigger] first_named(a, name) == first_named(b, name) by {
        lemma_same_first_named(a, b, name);
    }
}

proof fn lemma_same_first_named<P: Program>(a: Seq<P>, b: Seq<P>, name: Seq<char>)
    requires
        a.len() == b.len(),
        forall|j: int| 0 <= j < a.len() ==> #[trigger] a[j].describe() == b[j].describe(),
    ensures
        first_named(a, name) == first_named(b, name),
        first_named(a, name) matches Some(i) ==> 0 <= i < a.len(),
{
    {
        assert forall|i: int| named(a, name, i) == named(b, name, i) by {
            if 0 <= i < a.len() {
                assert(a[i].describe() == b[i].describe());
            }
        }
        if exists|i: int| named(a, name, i) {
            let c = choose|i: int| named(a, name, i) && forall|j: int| 0 <= j < i ==> !named(a, name, j);
            lemma_least_named(a, name);
            lemma_first_named(b, name, c);
            lemma_first_named(a, name, c);
        }
    }
}

proof fn lemma_least_named<P: Program>(ps: Seq<P>, name: Seq<char>)
    requires
        exists|i: int| named(ps, name, i),
    ensures
        exists|i: int| named(ps, name, i) && forall|j: int| 0 <= j < i ==> !named(ps, name, j),
{
    let k = choose|i: int| named(ps, name, i);
    lemma_least_named_below(ps, name, k);
}

proof fn lemma_least_named_below<P: Program>(ps: Seq<P>, name: Seq<char>, k: int)
    requires
        named(ps, name, k),
    ensures
        exists|i: int| named(ps, name, i) && forall|j: int| 0 <= j < i ==> !named(ps, name, j),
    decreases k,
{
    if exists|j: int| 0 <= j < k && named(ps, name, j) {
        let j = choose|j: int| 0 <= j < k && named(ps, name, j);
        lemma_least_named_below(ps, name, j);
    } else {
        assert(forall|j: int| 0 <= j < k ==> !named(ps, name, j));
    }
}

/// The lines `write_program_help` writes for a program.
pub open spec fn help_lines(d: DescriptorView) -> Seq<Seq<char>> {
    seq![
        "program:"@, d.name, "version:"@, d.version, "abi:"@,
        decimal(d.abi.major as nat) + "."@ + decimal(d.abi.minor as nat),
        "summary:"@, d.summary,
    ]
}

/// The names of `ps`, in order.
pub open spec fn names<P: Program>(ps: Seq<P>) -> Seq<Seq<char>> {
    Seq::new(ps.len(), |i: int| ps[i].describe().name)
}

/// A fixed set of `N` programs.
pub struct ProgramRegistry<P: Program, const N: usize> {
    programs: [P; N],
}

impl<P: Program, const N: usize> View for ProgramRegistry<P, N> {
    type V = Seq<P>;

    closed spec fn view(&self) -> Seq<P> {
        self.programs@
    }
}

impl<P: Program, const N: usize> ProgramRegistry<P, N> {
    /// A registry of `programs`.
    pub fn new(programs: [P; N]) -> (r: Self)
        ensures
            r@ == programs@,
    {
        ProgramRegistry { programs }
    }

    fn find_index(&self, name: &str) -> (r: Option<usize>)
        ensures
            r matches Some(i) ==> i < N && first_named(self@, name@) == Some(i as int),
            r is None ==> first_named(self@, name@) is None,
    {
        let mut i: usize = 0;
        while i < N
            invariant
                i <= N,
                self@.len() == N,
                forall|j: int| 0 <= j < i ==> !named(self@, name@, j),
            decreases N - i,
        {
            let d = self.programs[i].descriptor();
            if str_eq(d.name, name) {
                proof {
                    lemma_first_named(self@, name@, i as int);
                }
                return Some(i);
            }
            i = i + 1;
        }
        None
    }

    /// The first program named `name`.
    pub fn find_program(&self, name: &str) -> (r: Option<&P>)
        ensures
            match first_named(self@, name@) {
                Some(i) => r == Some(&self@[i]),
                None => r is None,
            },
    {
        match self.find_index(name) {
            Some(i) => Some(&self.programs[i]),
            None => None,
        }
    }

    /// Runs program `i` with `args`; the other programs are untouched.
    pub(crate) fn run_program<W: ConsoleWriter>(&mut self, i: usize, args: &[&str], out: &mut W) -> (code: i32)
        requires
            i < N,
        ensures
            old(self)@.len() == N,
            final(self)@.len() == N,
            forall|j: int| 0 <= j < N && j != i ==> final(self)@[j] == old(self)@[j],
            final(self)@[i as int].describe() == old(self)@[i as int].describe(),
            old(out).records() ==> final(out).records(),
            old(self)@[i as int].execute_outcome(strs_view(args@)) matches Some((c, ls))
                ==> code == c && wrote(*old(out), *final(out), ls),
    {
        self.programs[i].execute(args, out)
    }

    /// The index of the first program named `name`.
    pub(crate) fn index_of(&self, name: &str) -> (r: Option<usize>)
        ensures
            r matches Some(i) ==> i < N && first_named(self@, name@) == Some(i as int),
            r is None ==> first_named(self@, name@) is None,
    {
        self.find_index(name)
    }

    /// Parses `line` and runs the program it names with its arguments.
    pub fn execute_line<W: ConsoleWriter>(&mut self, line: &str, out: &mut W) -> (r: Result<i32, ConsoleError>)
        ensures
            words(line@).len() == 0 ==> r == Err::<i32, ConsoleError>(ConsoleError::Empty),
            words(line@).len() > MAX_ARGS + 1 ==> r == Err::<i32, ConsoleError>(ConsoleError::TooManyArgs),
            1 <= words(line@).len() <= MAX_ARGS + 1 ==> match first_named(old(self)@, words(line@)[0]) {
                None => r == Err::<i32, ConsoleError>(ConsoleError::UnknownProgram),
                Some(i) => r is Ok && final(self)@.len() == N
                    && (forall|j: int| 0 <= j < N && j != i ==> final(self)@[j] == old(self)@[j])
                    && (old(self)@[i].execute_outcome(words(line@).subrange(1, words(line@).len() as int)) matches Some((c, ls))
                        ==> r == Ok::<i32, ConsoleError>(c) && wrote(*old(out), *final(out), ls)),
            },
            r is Err ==> final(self)@ == old(self)@ && *final(out) == *old(out),
    {
        let parsed = match parse_command_line(line) {
            Ok(p) => p,
            Err(e) => return Err(e),
        };
        let idx = match self.find_index(parsed.program_name()) {
            Some(i) => i,
            None => return Err(ConsoleError::UnknownProgram),
        };
        let args = parsed.args();
        proof {
            assert(strs_view(args@) =~= words(line@).subrange(1, words(line@).len() as int));
        }
        let code = self.programs[idx].execute(args, out);
        Ok(code)
    }

    /// "programs:" and then each program's name.
    pub fn program_list_lines(&self) -> (v: Vec<String>)
        ensures
            texts(v@) == seq!["programs:"@] + names(self@),
    {
        let mut v = one_line("programs:");
        let mut i: usize = 0;
        while i < N
            invariant
                i <= N,
                self@.len() == N,
                texts(v@) == seq!["programs:"@] + names(self@).subrange(0, i as int),
            decreases N - i,
        {
            let d = self.programs[i].descriptor();
            push_line(&mut v, d.name);
            assert(names(self@).subrange(0, i + 1) =~= names(self@).subrange(0, i as int).push(d.name@));
            i = i + 1;
        }
        assert(names(self@).subrange(0, N as int) =~= names(self@));
        v
    }

    /// Writes the lines of `program_list_lines`.
    pub fn write_programs<W: ConsoleWriter>(&self, out: &mut W)
        ensures
            wrote(*old(out), *final(out), seq!["programs:"@] + names(self@)),
    {
        let lines = self.program_list_lines();
        write_lines(out, &lines);
    }

    /// The name, version, ABI and summary of the program `name`.
    pub fn program_help_lines(&self, name: &str) -> (r: Result<Vec<String>, ConsoleError>)
        ensures
            match first_named(self@, name@) {
                None => r == Err::<Vec<String>, ConsoleError>(ConsoleError::UnknownProgram),
                Some(i) => r matches Ok(v) && texts(v@) == help_lines(self@[i].describe()),
            },
    {
        let idx = match self.find_index(name) {
            Some(i) => i,
            None => return Err(ConsoleError::UnknownProgram),
        };
        let d = self.programs[idx].descriptor();
        let mut v = one_line("program:");
        push_line(&mut v, d.name);
        push_line(&mut v, "version:");
        push_line(&mut v, d.version);
        push_line(&mut v, "abi:");
        let mut abi = decimal_string(d.abi.major as u64);
        abi.append(".");
        let minor = decimal_string(d.abi.minor as u64);
        abi.append(minor.as_str());
        push_line(&mut v, abi.as_str());
        push_line(&mut v, "summary:");
        push_line(&mut v, d.summary);
        assert(texts(v@) =~= help_lines(self@[idx as int].describe()));
        Ok(v)
    }

    /// Writes the lines of `program_help_lines`, or fails with
    /// `UnknownProgram` and writes nothing.
    pub fn write_program_help<W: ConsoleWriter>(&self, name: &str, out: &mut W) -> (r: Result<(), ConsoleError>)
        ensures
            match first_named(self@, name@) {
                None => r == Err::<(), ConsoleError>(ConsoleError::UnknownProgram) && *final(out) == *old(out),
                Some(i) => r == Ok::<(), ConsoleError>(()) && wrote(*old(out), *final(out), help_lines(self@[i].describe())),
            },
    {
        match self.program_help_lines(name) {
            Ok(lines) => {
                write_lines(out, &lines);
                Ok(())
            },
            Err(e) => Err(e),
        }
    }
}

} // verus!

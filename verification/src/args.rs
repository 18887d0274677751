use vstd::prelude::*;
use vstd::string::StrSliceExecFns;
use vstd::string::StringExecFns;

verus! {

/// What the profiler was asked to do: where the trace goes, whether to open
/// the viewer once the target has ended, and the target program with its own
/// arguments.
#[derive(Debug, Clone, PartialEq, Eq, Hash)]
pub struct Args {
    trace_file: String,
    tui: bool,
    target_program: String,
    target_program_args: Vec<String>,
}

/// What the arguments hold, as mathematical values.
pub struct ArgsView {
    pub trace_file: Seq<char>,
    pub tui: bool,
    pub target_program: Seq<char>,
    pub target_program_args: Seq<Seq<char>>,
}

impl View for Args {
    type V = ArgsView;

    closed spec fn view(&self) -> ArgsView {
        ArgsView {
            trace_file: self.trace_file@,
            tui: self.tui,
            target_program: self.target_program@,
            target_program_args: self.target_program_args@.map_values(|arg: String| arg@),
        }
    }
}

/// Whether `c` separates the parts of a path: a slash or a backslash.
pub open spec fn is_separator(c: char) -> bool {
    c == '/' || c == '\\'
}

/// Where the last part of a path starts: behind its last separator, or at
/// the front if it has none.
pub open spec fn name_start(path: Seq<char>) -> int
    decreases path.len(),
{
    if path.len() == 0 {
        0
    } else if is_separator(path.last()) {
        path.len() as int
    } else {
        name_start(path.drop_last())
    }
}

/// The last part of a path: what follows its last separator, or all of it
/// if it has none. A path that ends in a separator has an empty last part.
pub open spec fn program_name(path: Seq<char>) -> Seq<char> {
    path.skip(name_start(path))
}

/// The name of the trace file of a run that was given none: the name of the
/// target program, a hyphen, the time stamp of the run, and `.trace`.
pub open spec fn default_trace_file_name(target_program: Seq<char>, stamp: Seq<char>) -> Seq<char> {
    program_name(target_program) + "-"@ + stamp + ".trace"@
}

/// The last part of a path is cut at the right place: it holds no separator,
/// and it is the whole path or stands behind a separator.
pub proof fn lemma_name_start(path: Seq<char>)
    ensures
        0 <= name_start(path) <= path.len(),
        forall|i: int| name_start(path) <= i < path.len() ==> !is_separator(#[trigger] path[i]),
        name_start(path) == 0 || is_separator(path[name_start(path) - 1]),
    decreases path.len(),
{
    if path.len() > 0 && !is_separator(path.last()) {
        let front = path.drop_last();
        lemma_name_start(front);
        assert forall|i: int| name_start(path) <= i < path.len() implies !is_separator(
            #[trigger] path[i],
        ) by {
            if i < front.len() {
                assert(front[i] == path[i]);
            }
        }
        if name_start(path) != 0 {
            assert(front[name_start(path) - 1] == path[name_start(path) - 1]);
        }
    }
}

/// The local time of the call, as year, month, day, hour, minute and second
/// with hyphens between them.
///
/// Calls `chrono::Local::now` and formats what it returns with the pattern
/// `%F-%H-%M-%S`. The result depends on the clock and on the time zone of
/// the machine, so nothing is claimed of it.
#[verifier::external_body]
fn local_time_stamp() -> (stamp: String) {
    chrono::Local::now().format("%F-%H-%M-%S").to_string()
}

/// Builds the name of the trace file of a run that was given none, from the
/// path of the target program and the time stamp of the run.
pub fn generate_trace_file_name(target_program: &str, stamp: &str) -> (name: String)
    ensures
        name@ == default_trace_file_name(target_program@, stamp@),
{
    let length: usize = target_program.unicode_len();
    let mut start: usize = 0;
    let mut i: usize = 0;
    for c in it: target_program.chars()
        invariant
            length == target_program@.len(),
            it.seq() == target_program@,
            i == it.index(),
            start == name_start(target_program@.take(i as int)),
    {
        proof {
            assert(target_program@.take(i + 1).drop_last() =~= target_program@.take(i as int));
        }
        i = i + 1;
        if c == '/' || c == '\\' {
            start = i;
        }
    }
    proof {
        assert(target_program@.take(i as int) =~= target_program@);
        lemma_name_start(target_program@);
        assert(target_program@.subrange(start as int, length as int) =~= program_name(
            target_program@,
        ));
    }
    let mut name = String::from_str(target_program.substring_char(start, length));
    name.append("-");
    name.append(stamp);
    name.append(".trace");
    name
}

impl Args {
    /// The arguments of a run, with the trace file named after the target
    /// program and `stamp` where none is given.
    pub fn with_time_stamp(
        trace_file: Option<String>,
        tui: bool,
        target_program: String,
        target_program_args: Vec<String>,
        stamp: &str,
    ) -> (args: Args)
        ensures
            args@.trace_file == match trace_file {
                Some(name) => name@,
                None => default_trace_file_name(target_program@, stamp@),
            },
            args@.tui == tui,
            args@.target_program == target_program@,
            args@.target_program_args == target_program_args@.map_values(|arg: String| arg@),
    {
        let trace_file = match trace_file {
            Some(name) => name,
            None => generate_trace_file_name(target_program.as_str(), stamp),
        };
        Args { trace_file, tui, target_program, target_program_args }
    }

    /// The arguments of a run. Where no trace file is given, its name is
    /// made once, here, from the target program and the local time, and
    /// stays the same for as long as the arguments live.
    pub fn new(
        trace_file: Option<String>,
        tui: bool,
        target_program: String,
        target_program_args: Vec<String>,
    ) -> (args: Args)
        ensures
            match trace_file {
                Some(name) => args@.trace_file == name@,
                None => exists|stamp: Seq<char>|
                    args@.trace_file == default_trace_file_name(target_program@, stamp),
            },
            args@.tui == tui,
            args@.target_program == target_program@,
            args@.target_program_args == target_program_args@.map_values(|arg: String| arg@),
    {
        match trace_file {
            Some(name) => Args { trace_file: name, tui, target_program, target_program_args },
            None => {
                let stamp = local_time_stamp();
                Args::with_time_stamp(
                    None,
                    tui,
                    target_program,
                    target_program_args,
                    stamp.as_str(),
                )
            },
        }
    }

    /// The file that the trace is written to and read from.
    pub fn trace_file(&self) -> (trace_file: &str)
        ensures
            trace_file@ == self@.trace_file,
    {
        self.trace_file.as_str()
    }

    /// Whether the viewer opens once the target program has ended.
    pub fn tui(&self) -> (tui: bool)
        ensures
            tui == self@.tui,
    {
        self.tui
    }

    /// The program to profile.
    pub fn target_program(&self) -> (target_program: &str)
        ensures
            target_program@ == self@.target_program,
    {
        self.target_program.as_str()
    }

    /// The arguments that the target program is started with.
    pub fn target_program_args(&self) -> (target_program_args: &Vec<String>)
        ensures
            target_program_args@.map_values(|arg: String| arg@) == self@.target_program_args,
    {
        &self.target_program_args
    }
}

} // verus!

use vstd::prelude::*;

verus! {

/// How loud a log line is.
#[allow(non_camel_case_types)]
#[derive(Clone, Copy, Debug, PartialEq, Eq, Structural)]
pub enum LogLevel {
    INFO,
    WARNING,
    ERROR,
    NO_LOGS,
}

/// The Rust edition a program is rebuilt with.
#[derive(Clone, Copy, Debug, PartialEq, Eq, Structural)]
pub enum RustEdition {
    R2024,
    R2021,
    R2018,
}

/// What is known of a file's modification time: the file cannot be examined,
/// its time cannot be read, or its time in nanoseconds from the Unix epoch
/// (negative before it).
#[derive(Clone, Copy, Debug, PartialEq, Eq, Structural)]
pub enum FileStamp {
    Missing,
    Untimed,
    At(i128),
}

/// The text of `level`'s tag, or `None` when it logs nothing.
pub open spec fn level_tag(level: LogLevel) -> Option<Seq<char>> {
    match level {
        LogLevel::INFO => Some(seq!['[', 'I', 'N', 'F', 'O', ']']),
        LogLevel::WARNING => Some(seq!['[', 'W', 'A', 'R', 'N', ']']),
        LogLevel::ERROR => Some(seq!['[', 'E', 'R', 'R', 'O', 'R', ']']),
        LogLevel::NO_LOGS => None,
    }
}

/// The year of `edition`, as text.
pub open spec fn edition_text(edition: RustEdition) -> Seq<char> {
    match edition {
        RustEdition::R2024 => seq!['2', '0', '2', '4'],
        RustEdition::R2021 => seq!['2', '0', '2', '1'],
        RustEdition::R2018 => seq!['2', '0', '1', '8'],
    }
}

/// Whether an executable with stamp `output`, built from sources with stamps
/// `sources`, has to be rebuilt: when it cannot be examined, when a time
/// needed for the comparison cannot be read, or when a source is newer.
pub open spec fn stale(output: FileStamp, sources: Seq<FileStamp>) -> bool {
    match output {
        FileStamp::Missing => true,
        FileStamp::Untimed => sources.len() > 0,
        FileStamp::At(t) => exists|i: int|
            0 <= i < sources.len() && match #[trigger] sources[i] {
                FileStamp::At(s) => t < s,
                _ => true,
            },
    }
}

/// The options of `rustc_args` in order, each followed by its value if it
/// has one.
pub open spec fn flat_args(rustc_args: Seq<(String, Option<String>)>) -> Seq<Seq<char>>
    decreases rustc_args.len(),
{
    if rustc_args.len() == 0 {
        Seq::empty()
    } else {
        let (opt, val) = rustc_args.last();
        flat_args(rustc_args.drop_last()) + match val {
            Some(v) => seq![opt@, v@],
            None => seq![opt@],
        }
    }
}

/// The arguments that rustc gets to rebuild `main_path` into `self_path`.
pub open spec fn rustc_command(
    rustc_args: Seq<(String, Option<String>)>,
    edition: RustEdition,
    self_path: Seq<char>,
    main_path: Seq<char>,
) -> Seq<Seq<char>> {
    flat_args(rustc_args) + seq![
        seq!['-', '-', 'e', 'd', 'i', 't', 'i', 'o', 'n'],
        edition_text(edition),
        seq!['-', 'o'],
        self_path,
        main_path,
    ]
}

impl RustEdition {
    /// The year of this edition, as text.
    pub fn to_string(&self) -> (r: String)
        ensures
            r@ == edition_text(*self),
    {
        proof {
            reveal_strlit("2024");
            reveal_strlit("2021");
            reveal_strlit("2018");
        }
        let r = match self {
            RustEdition::R2024 => String::from_str("2024"),
            RustEdition::R2021 => String::from_str("2021"),
            RustEdition::R2018 => String::from_str("2018"),
        };
        assert(r@ =~= edition_text(*self));
        r
    }
}

impl LogLevel {
    /// Whether lines of this level go to the error stream.
    pub fn to_stderr(&self) -> (r: bool)
        ensures
            r == (*self == LogLevel::ERROR),
    {
        match self {
            LogLevel::ERROR => true,
            _ => false,
        }
    }
}

/// The line that logging `message` at `level` prints: the level's tag, a
/// space and the message; `None` at `NO_LOGS`.
pub fn log_line(level: LogLevel, message: &str) -> (r: Option<String>)
    ensures
        match level_tag(level) {
            Some(tag) => r matches Some(line) && line@ == tag + seq![' '] + message@,
            None => r is None,
        },
{
    proof {
        reveal_strlit("[INFO] ");
        reveal_strlit("[WARN] ");
        reveal_strlit("[ERROR] ");
    }
    let tag = match level {
        LogLevel::INFO => "[INFO] ",
        LogLevel::WARNING => "[WARN] ",
        LogLevel::ERROR => "[ERROR] ",
        LogLevel::NO_LOGS => {
            return None;
        },
    };
    let line = String::from_str(tag).concat(message);
    assert(line@ =~= level_tag(level).unwrap() + seq![' '] + message@);
    Some(line)
}

/// Whether the executable has to be rebuilt (see `stale`).
pub fn needs_rebuild(output: FileStamp, sources: &Vec<FileStamp>) -> (r: bool)
    ensures
        r == stale(output, sources@),
{
    let t = match output {
        FileStamp::Missing => {
            return true;
        },
        FileStamp::Untimed => {
            return sources.len() > 0;
        },
        FileStamp::At(t) => t,
    };
    let mut i: usize = 0;
    while i < sources.len()
        invariant
            output == FileStamp::At(t),
            i <= sources@.len(),
            forall|j: int| 0 <= j < i ==> (#[trigger] sources@[j] matches FileStamp::At(s) && t >= s),
        decreases sources@.len() - i,
    {
        match sources[i] {
            FileStamp::At(s) => {
                if t < s {
                    return true;
                }
            },
            _ => {
                return true;
            },
        }
        i = i + 1;
    }
    false
}

/// The paths a rebuild watches: the main source, then the extra ones.
pub fn source_paths(main_path: &str, extra_sources: &Vec<String>) -> (r: Vec<String>)
    ensures
        r.deep_view() == seq![main_path@] + extra_sources.deep_view(),
{
    let mut r: Vec<String> = Vec::new();
    r.push(String::from_str(main_path));
    let mut i: usize = 0;
    while i < extra_sources.len()
        invariant
            i <= extra_sources@.len(),
            r.deep_view() == seq![main_path@] + extra_sources.deep_view().subrange(0, i as int),
        decreases extra_sources@.len() - i,
    {
        let ghost prev = r.deep_view();
        let s = extra_sources[i].clone();
        r.push(s);
        assert(r.deep_view() =~= prev.push(s@));
        assert(s@ == extra_sources.deep_view()[i as int]);
        assert(r.deep_view() =~= seq![main_path@] + extra_sources.deep_view().subrange(
            0,
            i + 1,
        ));
        i = i + 1;
    }
    assert(extra_sources.deep_view().subrange(0, i as int) =~= extra_sources.deep_view());
    r
}

/// The arguments that rustc gets to rebuild `main_path` into `self_path` with
/// `edition`: the given options first (see `rustc_command`).
pub fn rebuild_edition_args(
    edition: RustEdition,
    self_path: &str,
    main_path: &str,
    rustc_args: &Vec<(String, Option<String>)>,
) -> (r: Vec<String>)
    ensures
        r.deep_view() == rustc_command(rustc_args@, edition, self_path@, main_path@),
{
    let mut r: Vec<String> = Vec::new();
    let mut i: usize = 0;
    while i < rustc_args.len()
        invariant
            i <= rustc_args@.len(),
            r.deep_view() == flat_args(rustc_args@.subrange(0, i as int)),
        decreases rustc_args@.len() - i,
    {
        let ghost prev = r@;
        let (opt, val) = &rustc_args[i];
        let o = opt.clone();
        r.push(o);
        match val {
            Some(v) => {
                let c = v.clone();
                r.push(c);
                assert(r@ == prev.push(o).push(c));
            },
            None => {
                assert(r@ == prev.push(o));
            },
        }
        assert(rustc_args@.subrange(0, i + 1).drop_last() =~= rustc_args@.subrange(0, i as int));
        assert(r.deep_view() =~= flat_args(rustc_args@.subrange(0, i + 1)));
        i = i + 1;
    }
    assert(rustc_args@.subrange(0, i as int) =~= rustc_args@);
    proof {
        reveal_strlit("--edition");
        reveal_strlit("-o");
    }
    let ghost prev = r@;
    let a = String::from_str("--edition");
    let b = edition.to_string();
    let c = String::from_str("-o");
    let d = String::from_str(self_path);
    let e = String::from_str(main_path);
    r.push(a);
    r.push(b);
    r.push(c);
    r.push(d);
    r.push(e);
    assert(r@ == prev + seq![a, b, c, d, e]);
    assert(a@ =~= seq!['-', '-', 'e', 'd', 'i', 't', 'i', 'o', 'n']);
    assert(c@ =~= seq!['-', 'o']);
    assert(r.deep_view() =~= rustc_command(rustc_args@, edition, self_path@, main_path@));
    r
}

/// The rustc arguments of a rebuild with `edition` and optimizations on.
pub fn rebuild_edition(edition: RustEdition, self_path: &str, main_path: &str) -> (r: Vec<String>)
    ensures
        r.deep_view() == seq![seq!['-', 'O']] + rustc_command(
            Seq::empty(),
            edition,
            self_path@,
            main_path@,
        ),
{
    proof {
        reveal_strlit("-O");
    }
    let mut opts: Vec<(String, Option<String>)> = Vec::new();
    opts.push((String::from_str("-O"), None));
    let r = rebuild_edition_args(edition, self_path, main_path, &opts);
    assert(opts@.drop_last() =~= Seq::<(String, Option<String>)>::empty());
    assert(opts@.last().0@ =~= seq!['-', 'O']);
    assert(opts@.last().1 is None);
    assert(flat_args(opts@.drop_last()) =~= Seq::<Seq<char>>::empty());
    assert(flat_args(opts@) =~= seq![seq!['-', 'O']]);
    assert(r.deep_view() =~= seq![seq!['-', 'O']] + rustc_command(
        Seq::empty(),
        edition,
        self_path@,
        main_path@,
    ));
    r
}

/// The rustc arguments of a rebuild with the 2024 edition and optimizations
/// on.
pub fn rebuild(self_path: &str, main_path: &str) -> (r: Vec<String>)
    ensures
        r.deep_view() == seq![seq!['-', 'O']] + rustc_command(
            Seq::empty(),
            RustEdition::R2024,
            self_path@,
            main_path@,
        ),
{
    rebuild_edition(RustEdition::R2024, self_path, main_path)
}

/// The text of a `rust-project.json` that lets an editor's analyzer treat
/// the single file `root_file` as a crate of `edition`, with the standard
/// library's sources under `sysroot`.
pub open spec fn project_text(sysroot: Seq<char>, root_file: Seq<char>, edition: RustEdition) -> Seq<
    char,
> {
    "{\n\"sysroot_src\": \""@ + sysroot + "/lib/rustlib/src/rust/library\",\n\"crates\": [\n    {\n        \"root_module\": \""@
        + root_file + "\",\n        \"edition\": \""@ + edition_text(edition)
        + "\",\n        \"deps\": []\n    }\n]\n}"@
}

/// The text of a `rust-project.json` (see `project_text`).
pub fn project_json(sysroot: &str, root_file: &str, edition: RustEdition) -> (r: String)
    ensures
        r@ == project_text(sysroot@, root_file@, edition),
{
    let ed = edition.to_string();
    let r = String::from_str("{\n\"sysroot_src\": \"").concat(sysroot).concat(
        "/lib/rustlib/src/rust/library\",\n\"crates\": [\n    {\n        \"root_module\": \"",
    ).concat(root_file).concat("\",\n        \"edition\": \"").concat(ed.as_str()).concat(
        "\",\n        \"deps\": []\n    }\n]\n}",
    );
    r
}

} // verus!

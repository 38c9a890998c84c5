//! Command-line settings of a run and the URL list read from a file.

use vstd::prelude::*;

use crate::board::texts;
use crate::number::{parse_bounded, parse_outcome, parse_usize};

verus! {

/// Whether `c` has the Unicode property White_Space.
pub open spec fn is_white_space(c: char) -> bool {
    ('\u{9}' <= c <= '\u{d}') || c == ' ' || c == '\u{85}' || c == '\u{a0}' || c == '\u{1680}'
        || ('\u{2000}' <= c <= '\u{200a}') || c == '\u{2028}' || c == '\u{2029}' || c == '\u{202f}'
        || c == '\u{205f}' || c == '\u{3000}'
}

/// The text without its leading white space.
pub open spec fn trim_start(s: Seq<char>) -> Seq<char>
    decreases s.len(),
{
    if s.len() > 0 && is_white_space(s[0]) {
        trim_start(s.drop_first())
    } else {
        s
    }
}

/// The text without its trailing white space.
pub open spec fn trim_end(s: Seq<char>) -> Seq<char>
    decreases s.len(),
{
    if s.len() > 0 && is_white_space(s.last()) {
        trim_end(s.drop_last())
    } else {
        s
    }
}

/// The text without leading and trailing white space.
pub open spec fn trimmed(s: Seq<char>) -> Seq<char> {
    trim_end(trim_start(s))
}

/// Whether the text holds nothing but white space.
pub open spec fn is_blank(s: Seq<char>) -> bool {
    trimmed(s).len() == 0
}

/// Relies on `str::trim` (copied into a new `String`): the slice without leading and
/// trailing characters of the Unicode property White_Space.
#[verifier::external_body]
fn trim_text(s: &str) -> (r: String)
    ensures
        r@ == trimmed(s@),
{
    s.trim().to_string()
}

/// The settings of a run.
pub struct Config {
    /// The URLs to check; see `valid`.
    pub urls: Vec<String>,
    /// The number of concurrent workers.
    pub workers: usize,
    /// The bound on each attempt, in seconds.
    pub timeout_secs: u64,
    /// The number of retries after a transport error.
    pub retries: u32,
    /// Where the report is written.
    pub status_file: String,
}

impl Config {
    /// At least one URL, no blank URL, and at least one worker.
    pub open spec fn valid(&self) -> bool {
        &&& self.urls.len() > 0
        &&& forall|i: int| 0 <= i < self.urls.len() ==> !is_blank(#[trigger] self.urls@[i]@)
        &&& self.workers >= 1
    }
}

/// What the command line says, before the URL file (if any) is read.
pub struct ParsedArgs {
    /// The URLs given directly, in order.
    pub urls: Vec<String>,
    /// The file named by `--file`, whose lines hold more URLs.
    pub file: Option<String>,
    pub workers: usize,
    pub timeout_secs: u64,
    pub retries: u32,
    pub status_file: String,
}

/// Mathematical view of `ParsedArgs`.
pub struct ArgsView {
    pub urls: Seq<Seq<char>>,
    pub file: Option<Seq<char>>,
    pub workers: usize,
    pub timeout_secs: u64,
    pub retries: u32,
    pub status_file: Seq<char>,
}

impl View for ParsedArgs {
    type V = ArgsView;

    open spec fn view(&self) -> ArgsView {
        ArgsView {
            urls: texts(self.urls@),
            file: match self.file {
                Some(f) => Some(f@),
                None => None,
            },
            workers: self.workers,
            timeout_secs: self.timeout_secs,
            retries: self.retries,
            status_file: self.status_file@,
        }
    }
}

/// Why a command line is refused.
pub enum ArgError {
    MissingFile,
    MissingWorkers,
    InvalidWorkers,
    MissingTimeout,
    InvalidTimeout,
    MissingRetries,
    InvalidRetries,
    MissingStatusFile,
    /// An argument starting with `--` that names no known flag.
    UnknownFlag(String),
}

/// Mathematical view of `ArgError`.
pub enum ArgFault {
    MissingFile,
    MissingWorkers,
    InvalidWorkers,
    MissingTimeout,
    InvalidTimeout,
    MissingRetries,
    InvalidRetries,
    MissingStatusFile,
    UnknownFlag(Seq<char>),
}

impl View for ArgError {
    type V = ArgFault;

    open spec fn view(&self) -> ArgFault {
        match self {
            ArgError::MissingFile => ArgFault::MissingFile,
            ArgError::MissingWorkers => ArgFault::MissingWorkers,
            ArgError::InvalidWorkers => ArgFault::InvalidWorkers,
            ArgError::MissingTimeout => ArgFault::MissingTimeout,
            ArgError::InvalidTimeout => ArgFault::InvalidTimeout,
            ArgError::MissingRetries => ArgFault::MissingRetries,
            ArgError::InvalidRetries => ArgFault::InvalidRetries,
            ArgError::MissingStatusFile => ArgFault::MissingStatusFile,
            ArgError::UnknownFlag(f) => ArgFault::UnknownFlag(f@),
        }
    }
}

/// The text shown for a refused command line.
pub open spec fn fault_message(f: ArgFault) -> Seq<char> {
    match f {
        ArgFault::MissingFile => "Missing value after --file."@,
        ArgFault::MissingWorkers => "Missing value after --workers."@,
        ArgFault::InvalidWorkers => "Invalid value for workers."@,
        ArgFault::MissingTimeout => "Missing value after --timeout."@,
        ArgFault::InvalidTimeout => "Invalid timeout value."@,
        ArgFault::MissingRetries => "Missing value after --retries"@,
        ArgFault::InvalidRetries => "Invalid retries value."@,
        ArgFault::MissingStatusFile => "Missing value after --status-file"@,
        ArgFault::UnknownFlag(flag) => "Unknown flag: "@ + flag,
    }
}

impl ArgError {
    /// The text shown for this error.
    pub fn message(&self) -> (r: String)
        ensures
            r@ == fault_message(self@),
    {
        match self {
            ArgError::MissingFile => String::from_str("Missing value after --file."),
            ArgError::MissingWorkers => String::from_str("Missing value after --workers."),
            ArgError::InvalidWorkers => String::from_str("Invalid value for workers."),
            ArgError::MissingTimeout => String::from_str("Missing value after --timeout."),
            ArgError::InvalidTimeout => String::from_str("Invalid timeout value."),
            ArgError::MissingRetries => String::from_str("Missing value after --retries"),
            ArgError::InvalidRetries => String::from_str("Invalid retries value."),
            ArgError::MissingStatusFile => String::from_str("Missing value after --status-file"),
            ArgError::UnknownFlag(flag) => {
                let mut s = String::from_str("Unknown flag: ");
                s.append(flag.as_str());
                s
            },
        }
    }
}

/// The settings before any argument is read: no URL, `default_workers` workers, a
/// five-second timeout, no retry, and the report in `status.json`.
pub open spec fn initial_args(default_workers: usize) -> ArgsView {
    ArgsView {
        urls: Seq::empty(),
        file: None,
        workers: default_workers,
        timeout_secs: 5,
        retries: 0,
        status_file: "status.json"@,
    }
}

/// Whether an argument looks like a flag.
pub open spec fn is_flag_like(a: Seq<char>) -> bool {
    a.len() >= 2 && a[0] == '-' && a[1] == '-'
}

/// Reading the arguments from position `i` on, with the settings `acc` gathered so far.
/// A flag takes the next argument as its value; a later flag overrides an earlier one;
/// an argument that is no flag is a URL.
pub open spec fn parse_from(args: Seq<Seq<char>>, i: nat, acc: ArgsView) -> Result<ArgsView, ArgFault>
    decreases args.len() - i,
{
    if i >= args.len() {
        Ok(acc)
    } else {
        let a = args[i as int];
        let has_value = i + 1 < args.len();
        let v = args[i + 1 as int];
        if a == "--file"@ {
            if !has_value {
                Err(ArgFault::MissingFile)
            } else {
                parse_from(args, i + 2, ArgsView { file: Some(v), ..acc })
            }
        } else if a == "--workers"@ {
            if !has_value {
                Err(ArgFault::MissingWorkers)
            } else {
                match parse_outcome(v, usize::MAX as nat) {
                    Ok(n) => if n == 0 {
                        Err(ArgFault::InvalidWorkers)
                    } else {
                        parse_from(args, i + 2, ArgsView { workers: n as usize, ..acc })
                    },
                    Err(_) => Err(ArgFault::InvalidWorkers),
                }
            }
        } else if a == "--timeout"@ {
            if !has_value {
                Err(ArgFault::MissingTimeout)
            } else {
                match parse_outcome(v, u64::MAX as nat) {
                    Ok(n) => parse_from(args, i + 2, ArgsView { timeout_secs: n as u64, ..acc }),
                    Err(_) => Err(ArgFault::InvalidTimeout),
                }
            }
        } else if a == "--retries"@ {
            if !has_value {
                Err(ArgFault::MissingRetries)
            } else {
                match parse_outcome(v, u32::MAX as nat) {
                    Ok(n) => parse_from(args, i + 2, ArgsView { retries: n as u32, ..acc }),
                    Err(_) => Err(ArgFault::InvalidRetries),
                }
            }
        } else if a == "--status-file"@ {
            if !has_value {
                Err(ArgFault::MissingStatusFile)
            } else {
                parse_from(args, i + 2, ArgsView { status_file: v, ..acc })
            }
        } else if is_flag_like(a) {
            Err(ArgFault::UnknownFlag(a))
        } else {
            parse_from(args, i + 1, ArgsView { urls: acc.urls.push(a), ..acc })
        }
    }
}

/// What a whole command line (without the program name) says.
pub open spec fn parse_spec(args: Seq<Seq<char>>, default_workers: usize) -> Result<ArgsView, ArgFault> {
    parse_from(args, 0, initial_args(default_workers))
}

/// The result of a parse, with the views of its parts.
pub open spec fn parse_view(r: Result<ParsedArgs, ArgError>) -> Result<ArgsView, ArgFault> {
    match r {
        Ok(p) => Ok(p@),
        Err(e) => Err(e@),
    }
}

fn starts_with_dashes(a: &String) -> (r: bool)
    ensures
        r == is_flag_like(a@),
{
    let s = a.as_str();
    let n = s.unicode_len();
    n >= 2 && s.get_char(0) == '-' && s.get_char(1) == '-'
}

/// Reads a command line (without the program name). Known flags are `--file`,
/// `--workers` (a positive number), `--timeout` (seconds), `--retries` and
/// `--status-file`, each followed by its value; any other argument starting with
/// `--` is refused, and every other argument is a URL.
pub fn parse_args(args: &Vec<String>, default_workers: usize) -> (r: Result<ParsedArgs, ArgError>)
    requires
        default_workers >= 1,
    ensures
        parse_view(r) == parse_spec(texts(args@), default_workers),
        r matches Ok(p) ==> p.workers >= 1,
{
    let ghost av = texts(args@);
    let flag_file = String::from_str("--file");
    let flag_workers = String::from_str("--workers");
    let flag_timeout = String::from_str("--timeout");
    let flag_retries = String::from_str("--retries");
    let flag_status = String::from_str("--status-file");
    let mut p = ParsedArgs {
        urls: Vec::new(),
        file: None,
        workers: default_workers,
        timeout_secs: 5,
        retries: 0,
        status_file: String::from_str("status.json"),
    };
    assert(p@.urls =~= Seq::<Seq<char>>::empty());
    assert(p@ == initial_args(default_workers));
    let mut i: usize = 0;
    while i < args.len()
        invariant
            av == texts(args@),
            flag_file@ == "--file"@,
            flag_workers@ == "--workers"@,
            flag_timeout@ == "--timeout"@,
            flag_retries@ == "--retries"@,
            flag_status@ == "--status-file"@,
            i <= args.len(),
            p.workers >= 1,
            parse_spec(av, default_workers) == parse_from(av, i as nat, p@),
        decreases args.len() - i,
    {
        let a = &args[i];
        let has_value = i + 1 < args.len();
        assert(av[i as int] == a@);
        if *a == flag_file {
            if !has_value {
                return Err(ArgError::MissingFile);
            }
            p.file = Some(args[i + 1].clone());
            i += 2;
        } else if *a == flag_workers {
            if !has_value {
                return Err(ArgError::MissingWorkers);
            }
            match parse_usize(args[i + 1].as_str()) {
                Ok(n) => {
                    if n == 0 {
                        return Err(ArgError::InvalidWorkers);
                    }
                    p.workers = n;
                },
                Err(_) => {
                    return Err(ArgError::InvalidWorkers);
                },
            }
            i += 2;
        } else if *a == flag_timeout {
            if !has_value {
                return Err(ArgError::MissingTimeout);
            }
            match parse_bounded(args[i + 1].as_str(), u64::MAX) {
                Ok(n) => {
                    p.timeout_secs = n;
                },
                Err(_) => {
                    return Err(ArgError::InvalidTimeout);
                },
            }
            i += 2;
        } else if *a == flag_retries {
            if !has_value {
                return Err(ArgError::MissingRetries);
            }
            match parse_bounded(args[i + 1].as_str(), u32::MAX as u64) {
                Ok(n) => {
                    p.retries = n as u32;
                },
                Err(_) => {
                    return Err(ArgError::InvalidRetries);
                },
            }
            i += 2;
        } else if *a == flag_status {
            if !has_value {
                return Err(ArgError::MissingStatusFile);
            }
            p.status_file = args[i + 1].clone();
            i += 2;
        } else if starts_with_dashes(a) {
            return Err(ArgError::UnknownFlag(a.clone()));
        } else {
            let ghost before = p@;
            p.urls.push(a.clone());
            assert(p@.urls =~= before.urls.push(a@));
            i += 1;
        }
    }
    Ok(p)
}

/// The strings of `v` that are not blank, in order.
pub open spec fn nonblank_texts(v: Seq<Seq<char>>) -> Seq<Seq<char>> {
    v.filter(|s: Seq<char>| !is_blank(s))
}

/// Keeps the strings that are not blank, unchanged and in order.
pub fn keep_nonblank(v: Vec<String>) -> (r: Vec<String>)
    ensures
        texts(r@) == nonblank_texts(texts(v@)),
        forall|i: int| 0 <= i < r.len() ==> !is_blank(#[trigger] r@[i]@),
{
    let ghost vt = texts(v@);
    let mut out: Vec<String> = Vec::new();
    let mut i: usize = 0;
    while i < v.len()
        invariant
            vt == texts(v@),
            i <= v.len(),
            texts(out@) == nonblank_texts(vt.take(i as int)),
            forall|j: int| 0 <= j < out.len() ==> !is_blank(#[trigger] out@[j]@),
        decreases v.len() - i,
    {
        let s = v[i].clone();
        proof {
            let t = vt.take(i + 1);
            assert(t.drop_last() =~= vt.take(i as int));
            reveal(Seq::filter);
        }
        if trim_text(s.as_str()).as_str().unicode_len() > 0 {
            let ghost before = texts(out@);
            out.push(s);
            assert(texts(out@) =~= before.push(v@[i as int]@));
        }
        i += 1;
    }
    assert(vt.take(v.len() as int) =~= vt);
    out
}

impl Config {
    /// Completes the settings with the URLs read from the file named by `--file`
    /// (none when no file was named). Blank URLs are left out; `None` when no URL is
    /// left: a run always has at least one URL.
    pub fn from_parts(args: ParsedArgs, file_urls: Vec<String>) -> (r: Option<Config>)
        requires
            args.workers >= 1,
        ensures
            r is None <==> nonblank_texts(args@.urls + texts(file_urls@)).len() == 0,
            r matches Some(c) ==> {
                &&& c.valid()
                &&& texts(c.urls@) == nonblank_texts(args@.urls + texts(file_urls@))
                &&& c.workers == args.workers
                &&& c.timeout_secs == args.timeout_secs
                &&& c.retries == args.retries
                &&& c.status_file@ == args.status_file@
            },
    {
        let ParsedArgs { urls, file: _, workers, timeout_secs, retries, status_file } = args;
        let mut urls = urls;
        let ghost given = texts(urls@);
        let mut file_urls = file_urls;
        let ghost more = texts(file_urls@);
        urls.append(&mut file_urls);
        assert(texts(urls@) =~= given + more);
        let urls = keep_nonblank(urls);
        if urls.len() == 0 {
            return None;
        }
        Some(Config { urls, workers, timeout_secs, retries, status_file })
    }
}

/// The nonempty strings of `v`, in order.
pub open spec fn nonempty_texts(v: Seq<Seq<char>>) -> Seq<Seq<char>> {
    v.filter(|s: Seq<char>| s.len() > 0)
}

/// Each line without surrounding white space.
pub open spec fn trim_each(lines: Seq<Seq<char>>) -> Seq<Seq<char>> {
    lines.map_values(|l: Seq<char>| trimmed(l))
}

/// The URLs of a list of lines: each line without surrounding white space, blank lines left out.
pub open spec fn urls_of_lines(lines: Seq<Seq<char>>) -> Seq<Seq<char>> {
    nonempty_texts(trim_each(lines))
}

/// Keeps the nonempty strings, in order.
pub fn keep_nonempty(v: Vec<String>) -> (r: Vec<String>)
    ensures
        texts(r@) == nonempty_texts(texts(v@)),
{
    let ghost vt = texts(v@);
    let mut out: Vec<String> = Vec::new();
    let mut i: usize = 0;
    while i < v.len()
        invariant
            vt == texts(v@),
            i <= v.len(),
            texts(out@) == nonempty_texts(vt.take(i as int)),
        decreases v.len() - i,
    {
        let s = v[i].clone();
        proof {
            let t = vt.take(i + 1);
            assert(t.drop_last() =~= vt.take(i as int));
            reveal(Seq::filter);
        }
        if s.as_str().unicode_len() > 0 {
            let ghost before = texts(out@);
            out.push(s);
            assert(texts(out@) =~= before.push(s@));
        }
        i += 1;
    }
    assert(vt.take(v.len() as int) =~= vt);
    out
}

/// The URLs listed in the lines of a file: each line trimmed of surrounding white
/// space, blank lines left out, order kept.
pub fn url_list(lines: &Vec<String>) -> (r: Vec<String>)
    ensures
        texts(r@) == urls_of_lines(texts(lines@)),
{
    let mut trimmed_lines: Vec<String> = Vec::new();
    let mut i: usize = 0;
    while i < lines.len()
        invariant
            i <= lines.len(),
            texts(trimmed_lines@) == trim_each(texts(lines@).take(i as int)),
        decreases lines.len() - i,
    {
        let t = trim_text(lines[i].as_str());
        let ghost before = texts(trimmed_lines@);
        trimmed_lines.push(t);
        proof {
            let all = texts(lines@);
            assert(all.take(i + 1) =~= all.take(i as int).push(lines@[i as int]@));
            assert(texts(trimmed_lines@) =~= before.push(t@));
            assert(texts(trimmed_lines@) =~= trim_each(all.take(i + 1)));
        }
        i += 1;
    }
    assert(texts(lines@).take(lines.len() as int) =~= texts(lines@));
    keep_nonempty(trimmed_lines)
}

} // verus!

//! What the command line asks for.
use crate::text::{self, ascii_lower, chars_of, contains, same};
use vstd::prelude::*;
use vstd::string::*;

verus! {

/// What a command line asks for. Subcommands are told apart before the options are
/// read, so that they do not collide with the name of the output.
pub enum Entry {
    Update { tier: Option<String> },
    Model { args: Vec<String> },
    Devices { args: Vec<String> },
    /// A session: the options are read next.
    Session,
}

/// The arguments behind the name of the program and of the subcommand.
pub open spec fn behind(raw: Seq<Seq<char>>) -> Seq<Seq<char>> {
    raw.skip(2)
}

fn rest_of(raw: &Vec<String>) -> (r: Vec<String>)
    requires
        raw@.len() >= 2,
    ensures
        text::strs(r@) == behind(text::strs(raw@)),
{
    let ghost all = behind(text::strs(raw@));
    let mut r: Vec<String> = Vec::new();
    let mut i: usize = 2;
    assert(text::strs(r@) =~= all.take(0));
    while i < raw.len()
        invariant
            2 <= i <= raw@.len(),
            all == behind(text::strs(raw@)),
            text::strs(r@) == all.take(i - 2),
        decreases raw@.len() - i,
    {
        let ghost before = r@;
        r.push(raw[i].clone());
        assert(text::strs(r@) =~= text::strs(before).push(raw@[i as int]@));
        assert(all.take(i - 1) =~= all.take(i - 2).push(all[i - 2]));
        i += 1;
    }
    assert(all.take(all.len() as int) =~= all);
    r
}

/// Reads the subcommand. `raw` begins with the name of the program.
pub fn entry(raw: &Vec<String>) -> (r: Entry)
    ensures
        ({
            let a = text::strs(raw@);
            match r {
                Entry::Update { tier } => a.len() > 1 && a[1] == "update"@ && text::opt_str(tier)
                    == if a.len() > 2 {
                    Some(a[2])
                } else {
                    None
                },
                Entry::Model { args } => a.len() > 1 && a[1] == "model"@ && text::strs(args@)
                    == behind(a),
                Entry::Devices { args } => a.len() > 1 && a[1] == "devices"@ && text::strs(args@)
                    == behind(a),
                Entry::Session => a.len() <= 1 || (a[1] != "update"@ && a[1] != "model"@ && a[1]
                    != "devices"@),
            }
        }),
{
    if raw.len() <= 1 {
        return Entry::Session;
    }
    let word = raw[1].as_str();
    assert(text::strs(raw@)[1] == word@);
    if same(word, "update") {
        let tier = if raw.len() > 2 {
            Some(raw[2].clone())
        } else {
            None
        };
        Entry::Update { tier }
    } else if same(word, "model") {
        Entry::Model { args: rest_of(raw) }
    } else if same(word, "devices") {
        Entry::Devices { args: rest_of(raw) }
    } else {
        Entry::Session
    }
}

/// Where the install script is.
pub const INSTALL_URL: &'static str =
    "https://raw.githubusercontent.com/shohei81/kotoma/main/install.sh";

/// Where the install script for Windows is.
pub const INSTALL_PS1_URL: &'static str =
    "https://raw.githubusercontent.com/shohei81/kotoma/main/install.ps1";

/// Whether a word names a tier of models.
pub open spec fn is_tier(t: Seq<char>) -> bool {
    t == "standard"@ || t == "high"@ || t == "both"@
}

/// Reads the tier of an update: an unknown one is an error.
pub fn parse_tier(tier: Option<&str>) -> (r: Result<Option<String>, String>)
    ensures
        match r {
            Ok(t) => text::opt_str(t) == text::opt_slice(tier) && (tier matches Some(s) ==> is_tier(
                s@,
            )),
            Err(e) => tier matches Some(s) && !is_tier(s@) && e@ == "unknown tier '"@ + s@
                + "' (expected: standard | high | both)"@,
        },
{
    match tier {
        None => Ok(None),
        Some(t) => if same(t, "standard") || same(t, "high") || same(t, "both") {
            Ok(Some(t.to_owned()))
        } else {
            let mut e = "unknown tier '".to_owned();
            e.append(t);
            e.append("' (expected: standard | high | both)");
            Err(e)
        },
    }
}

/// Whether the running binary was built by cargo, by its path: it is then updated
/// from source, where a prebuilt one is downloaded again.
pub open spec fn built_by_cargo(exe: Option<Seq<char>>) -> bool {
    exe matches Some(p) && (text::occurs(p, "/.cargo/"@) || text::occurs(p, "\\.cargo\\"@))
}

/// Whether the running binary was built by cargo.
pub fn from_source(exe: Option<&str>) -> (r: bool)
    ensures
        r == built_by_cargo(text::opt_slice(exe)),
{
    match exe {
        Some(p) => contains(p, "/.cargo/") || contains(p, "\\.cargo\\"),
        None => false,
    }
}

/// What is said at the start of an update.
pub open spec fn banner_text(tier: Option<Seq<char>>, source: bool) -> Seq<char> {
    "==> Updating kotoma binary"@ + (match tier {
        Some(t) => " (+ "@ + t + " models)"@,
        None => Seq::empty(),
    }) + (if source {
        ", from source"@
    } else {
        Seq::empty()
    })
}

/// What is said at the start of an update.
pub fn update_banner(tier: Option<&str>, source: bool) -> (r: String)
    ensures
        r@ == banner_text(text::opt_slice(tier), source),
{
    let mut r = "==> Updating kotoma binary".to_owned();
    if let Some(t) = tier {
        r.append(" (+ ");
        r.append(t);
        r.append(" models)");
    }
    if source {
        r.append(", from source");
    }
    assert(r@ =~= banner_text(text::opt_slice(tier), source));
    r
}

/// A program with its arguments.
pub struct ShellCommand {
    pub program: &'static str,
    pub args: Vec<String>,
}

/// The script that updates.
pub open spec fn script_text(windows: bool, tier: Option<Seq<char>>, source: bool) -> Seq<char> {
    if windows {
        "& ([scriptblock]::Create((irm -useb '"@ + INSTALL_PS1_URL@ + "')))"@ + (match tier {
            Some(t) => " -Tier "@ + t,
            None => Seq::empty(),
        }) + (if source {
            " -FromSource"@
        } else {
            Seq::empty()
        })
    } else {
        "curl -fsSL '"@ + INSTALL_URL@ + "' | bash -s --"@ + (match tier {
            Some(t) => " "@ + t,
            None => Seq::empty(),
        }) + (if source {
            " --from-source"@
        } else {
            Seq::empty()
        })
    }
}

fn update_script(windows: bool, tier: Option<&str>, source: bool) -> (r: String)
    ensures
        r@ == script_text(windows, text::opt_slice(tier), source),
{
    let mut r = String::new();
    if windows {
        r.append("& ([scriptblock]::Create((irm -useb '");
        r.append(INSTALL_PS1_URL);
        r.append("')))");
        if let Some(t) = tier {
            r.append(" -Tier ");
            r.append(t);
        }
        if source {
            r.append(" -FromSource");
        }
    } else {
        r.append("curl -fsSL '");
        r.append(INSTALL_URL);
        r.append("' | bash -s --");
        if let Some(t) = tier {
            r.append(" ");
            r.append(t);
        }
        if source {
            r.append(" --from-source");
        }
    }
    assert(r@ =~= script_text(windows, text::opt_slice(tier), source));
    r
}

/// The command that updates the binary by the install script. Models stay as they
/// are unless a tier is given.
pub fn update_command(windows: bool, tier: Option<&str>, source: bool) -> (r: ShellCommand)
    ensures
        ({
            let script = script_text(windows, text::opt_slice(tier), source);
            if windows {
                &&& r.program@ == "powershell"@
                &&& text::strs(r.args@) == seq![
                    "-NoProfile"@,
                    "-ExecutionPolicy"@,
                    "Bypass"@,
                    "-Command"@,
                    script,
                ]
            } else {
                &&& r.program@ == "bash"@
                &&& text::strs(r.args@) == seq!["-c"@, script]
            }
        }),
{
    let script = update_script(windows, tier, source);
    let ghost text = script@;
    let mut args: Vec<String> = Vec::new();
    if windows {
        args.push("-NoProfile".to_owned());
        args.push("-ExecutionPolicy".to_owned());
        args.push("Bypass".to_owned());
        args.push("-Command".to_owned());
        args.push(script);
        assert(text::strs(args@) =~= seq![
            "-NoProfile"@,
            "-ExecutionPolicy"@,
            "Bypass"@,
            "-Command"@,
            text,
        ]);
        ShellCommand { program: "powershell", args }
    } else {
        args.push("-c".to_owned());
        args.push(script);
        assert(text::strs(args@) =~= seq!["-c"@, text]);
        ShellCommand { program: "bash", args }
    }
}

/// What is said when the install script fails.
pub fn update_failed(status: &str) -> (r: String)
    ensures
        r@ == "update failed (install script exited with "@ + status@ + ")"@,
{
    let mut r = "update failed (install script exited with ".to_owned();
    r.append(status);
    r.append(")");
    r
}

/// The digit that a character stands for.
pub open spec fn digit_of(c: char) -> Option<nat> {
    if '0' <= c <= '9' {
        Some((c as nat - '0' as nat) as nat)
    } else {
        None
    }
}

/// The number that digits stand for; none where one of them is no digit.
pub open spec fn digits_value(s: Seq<char>) -> Option<nat>
    decreases s.len(),
{
    if s.len() == 0 {
        Some(0)
    } else {
        match (digits_value(s.drop_last()), digit_of(s.last())) {
            (Some(v), Some(d)) => Some(v * 10 + d),
            _ => None,
        }
    }
}

/// The digits of a number: a plus sign may stand before them.
pub open spec fn unsigned_part(s: Seq<char>) -> Seq<char> {
    if s.len() > 0 && s[0] == '+' {
        s.skip(1)
    } else {
        s
    }
}

/// The 64-bit number that a text stands for.
pub open spec fn number_of(s: Seq<char>) -> Option<u64> {
    let digits = unsigned_part(s);
    if digits.len() == 0 {
        None
    } else {
        match digits_value(digits) {
            Some(v) => if v <= u64::MAX {
                Some(v as u64)
            } else {
                None
            },
            None => None,
        }
    }
}

proof fn lemma_digits_grow(s: Seq<char>, n: int)
    requires
        0 <= n <= s.len(),
        digits_value(s) is Some,
    ensures
        digits_value(s.take(n)) is Some,
        digits_value(s.take(n))->0 <= digits_value(s)->0,
    decreases s.len(),
{
    if n < s.len() {
        lemma_digits_grow(s.drop_last(), n);
        assert(s.drop_last().take(n) =~= s.take(n));
    } else {
        assert(s.take(n) =~= s);
    }
}

/// Reads a number.
pub fn parse_number(s: &str) -> (r: Option<u64>)
    ensures
        r == number_of(s@),
{
    let v = chars_of(s);
    let from: usize = if v.len() > 0 && v[0] == '+' {
        1
    } else {
        0
    };
    let ghost digits = unsigned_part(s@);
    assert(digits =~= v@.skip(from as int));
    if v.len() == from {
        return None;
    }
    let mut total: u64 = 0;
    let mut i: usize = from;
    assert(digits.take(0) =~= Seq::<char>::empty());
    while i < v.len()
        invariant
            from <= i <= v@.len(),
            digits == v@.skip(from as int),
            digits == unsigned_part(s@),
            digits.len() > 0,
            digits_value(digits.take(i - from)) == Some(total as nat),
        decreases v@.len() - i,
    {
        let c = v[i];
        let ghost upto = digits.take(i - from + 1);
        assert(upto.drop_last() =~= digits.take(i - from));
        assert(upto.last() == c);
        let ghost whole = digits_value(digits);
        if !('0' <= c && c <= '9') {
            proof {
                if whole is Some {
                    lemma_digits_grow(digits, i - from + 1);
                }
            }
            return None;
        }
        let d: u64 = (c as u32 - '0' as u32) as u64;
        if total > (u64::MAX - d) / 10 {
            proof {
                if whole is Some {
                    lemma_digits_grow(digits, i - from + 1);
                }
                assert(digits_value(upto) == Some((total * 10 + d) as nat));
                assert(total * 10 + d > u64::MAX);
            }
            return None;
        }
        total = total * 10 + d;
        i += 1;
    }
    assert(digits.take(digits.len() as int) =~= digits);
    Some(total)
}

/// What the `devices` subcommand is to do.
pub enum DevicesRequest {
    /// Open one source and report its level.
    Probe { name: String, secs: u64 },
    /// List the sources.
    Listing,
}

/// Reads the arguments of the `devices` subcommand.
pub fn devices_request(args: &Vec<String>) -> (r: Result<DevicesRequest, String>)
    ensures
        ({
            let a = text::strs(args@);
            match r {
                Ok(DevicesRequest::Probe { name, secs }) => {
                    &&& a.len() > 1
                    &&& a[0] == "probe"@
                    &&& name@ == a[1]
                    &&& secs == if a.len() > 2 {
                        match number_of(a[2]) {
                            Some(n) => n,
                            None => 5,
                        }
                    } else {
                        5
                    }
                },
                Ok(DevicesRequest::Listing) => a.len() == 0 || a[0] != "probe"@,
                Err(e) => a.len() == 1 && a[0] == "probe"@ && e@
                    == "usage: kotoma devices probe <device name> [secs]"@,
            }
        }),
{
    if args.len() == 0 {
        return Ok(DevicesRequest::Listing);
    }
    assert(text::strs(args@)[0] == args@[0]@);
    if !same(args[0].as_str(), "probe") {
        return Ok(DevicesRequest::Listing);
    }
    if args.len() == 1 {
        return Err("usage: kotoma devices probe <device name> [secs]".to_owned());
    }
    let secs: u64 = if args.len() > 2 {
        match parse_number(args[2].as_str()) {
            Some(n) => n,
            None => 5,
        }
    } else {
        5
    };
    Ok(DevicesRequest::Probe { name: args[1].clone(), secs })
}

/// Names, each on a line of its own.
pub open spec fn indented(names: Seq<Seq<char>>) -> Seq<char>
    decreases names.len(),
{
    if names.len() == 0 {
        Seq::empty()
    } else {
        indented(names.drop_last()) + "  "@ + names.last() + "\n"@
    }
}

fn push_names(out: &mut String, names: &Vec<String>)
    ensures
        final(out)@ == old(out)@ + indented(text::strs(names@)),
{
    let ghost all = text::strs(names@);
    let ghost first = out@;
    let mut i: usize = 0;
    assert(first + indented(all.take(0)) =~= first);
    while i < names.len()
        invariant
            i <= names@.len(),
            all == text::strs(names@),
            out@ == first + indented(all.take(i as int)),
        decreases names@.len() - i,
    {
        assert(all.take(i + 1).drop_last() =~= all.take(i as int));
        assert(all.take(i + 1).last() == names@[i as int]@);
        out.append("  ");
        out.append(names[i].as_str());
        out.append("\n");
        assert(out@ =~= first + indented(all.take(i + 1)));
        i += 1;
    }
    assert(all.take(names@.len() as int) =~= all);
}

/// The list of sources.
pub open spec fn devices_text(
    mic: Seq<Seq<char>>,
    sys: Seq<Seq<char>>,
    candidates: Seq<Seq<char>>,
) -> Seq<char> {
    "Microphone sources:\n"@ + indented(mic) + "\nSystem-audio sources:\n"@ + indented(sys)
        + "\nSystem-audio auto-detect candidates (tried in order):\n"@ + (if candidates.len() == 0 {
        "  (none found)\n"@
    } else {
        indented(candidates)
    })
}

/// The list of sources, for configuration files and for reports of faults.
pub fn devices_report(mic: &Vec<String>, sys: &Vec<String>, candidates: &Vec<String>) -> (r: String)
    ensures
        r@ == devices_text(text::strs(mic@), text::strs(sys@), text::strs(candidates@)),
{
    let mut r = "Microphone sources:\n".to_owned();
    push_names(&mut r, mic);
    r.append("\nSystem-audio sources:\n");
    push_names(&mut r, sys);
    r.append("\nSystem-audio auto-detect candidates (tried in order):\n");
    if candidates.len() == 0 {
        r.append("  (none found)\n");
    } else {
        push_names(&mut r, candidates);
    }
    r
}

/// The extensions that an output can have.
pub open spec fn output_extensions() -> Seq<Seq<char>> {
    seq!["md"@, "markdown"@, "mdown"@, "mkd"@, "txt"@, "log"@]
}

/// What becomes of the name of an output.
#[derive(Clone, Copy, Debug, PartialEq, Eq, Structural)]
pub enum OutputName {
    /// It stays as it is.
    Keep,
    /// It has no extension and gets the one of markdown.
    AddMd,
}

/// What is said of an extension that an output cannot have.
pub open spec fn extension_error(lower: Seq<char>) -> Seq<char> {
    "unsupported output extension: ."@ + lower
        + " (allowed: .md, .markdown, .mdown, .mkd, .txt, .log)"@
}

/// Decides on the name of an output by its extension.
pub fn check_extension(extension: Option<&str>) -> (r: Result<OutputName, String>)
    ensures
        match extension {
            None => r == Ok::<OutputName, String>(OutputName::AddMd),
            Some(e) => {
                let lower = text::ascii_lowered(e@);
                if output_extensions().contains(lower) {
                    r == Ok::<OutputName, String>(OutputName::Keep)
                } else {
                    r matches Err(m) && m@ == extension_error(lower)
                }
            },
        },
{
    match extension {
        None => Ok(OutputName::AddMd),
        Some(e) => {
            let lower = ascii_lower(e);
            let l = lower.as_str();
            let ghost all = output_extensions();
            assert(all[0] == "md"@ && all[1] == "markdown"@ && all[2] == "mdown"@ && all[3]
                == "mkd"@ && all[4] == "txt"@ && all[5] == "log"@);
            if same(l, "md") || same(l, "markdown") || same(l, "mdown") || same(l, "mkd") || same(
                l,
                "txt",
            ) || same(l, "log") {
                Ok(OutputName::Keep)
            } else {
                let mut m = "unsupported output extension: .".to_owned();
                m.append(l);
                m.append(" (allowed: .md, .markdown, .mdown, .mkd, .txt, .log)");
                Err(m)
            }
        },
    }
}

/// Which configuration is read.
#[derive(Clone, Copy, Debug, PartialEq, Eq, Structural)]
pub enum ConfigSource {
    /// The file that the command line names.
    Given,
    /// The one in the working directory.
    Here,
    /// The one below the home directory.
    Home,
    /// There is none.
    Missing,
}

/// Decides which configuration is read: the first of those that there are.
pub fn config_source(given: bool, here: bool, home: bool) -> (r: ConfigSource)
    ensures
        r == if given {
            ConfigSource::Given
        } else if here {
            ConfigSource::Here
        } else if home {
            ConfigSource::Home
        } else {
            ConfigSource::Missing
        },
{
    if given {
        ConfigSource::Given
    } else if here {
        ConfigSource::Here
    } else if home {
        ConfigSource::Home
    } else {
        ConfigSource::Missing
    }
}

/// Where the log goes.
pub enum LogDir {
    /// To the directory that the environment names.
    Given(String),
    /// Below the home directory.
    Home,
    /// To the working directory.
    Here,
}

/// The directory of the log, below the home directory.
pub const LOG_DIR: &'static str = ".config/kotoma/logs";

/// Decides where the log goes.
pub fn log_dir_path(given: Option<&str>, has_home: bool) -> (r: LogDir)
    ensures
        match given {
            Some(g) => r matches LogDir::Given(d) && d@ == g@,
            None => if has_home {
                r is Home
            } else {
                r is Here
            },
        },
{
    match given {
        Some(g) => LogDir::Given(g.to_owned()),
        None => if has_home {
            LogDir::Home
        } else {
            LogDir::Here
        },
    }
}

/// What a text has to be to stand for a number: digits alone, at least one of them,
/// with a plus sign in front or without, and not more than 64 bits hold.
pub proof fn numbers_are_digits(s: Seq<char>, digits: Seq<char>)
    requires
        s == digits && (s.len() == 0 || s[0] != '+') || s == seq!['+'] + digits,
    ensures
        ({
            let plain = forall|i: int|
                0 <= i < digits.len() ==> '0' <= #[trigger] digits[i] <= '9';
            &&& digits.len() == 0 ==> number_of(s) is None
            &&& !plain ==> number_of(s) is None
            &&& digits.len() > 0 && plain && text::number_in(digits) <= u64::MAX ==> number_of(s)
                == Some(text::number_in(digits) as u64)
            &&& digits.len() > 0 && plain && text::number_in(digits) > u64::MAX ==> number_of(s)
                is None
        }),
{
    assert(unsigned_part(s) =~= digits);
    lemma_digits(digits);
}

proof fn lemma_digits(s: Seq<char>)
    ensures
        (forall|i: int| 0 <= i < s.len() ==> '0' <= #[trigger] s[i] <= '9') ==> digits_value(s)
            == Some(text::number_in(s) as nat) && text::number_in(s) >= 0,
        !(forall|i: int| 0 <= i < s.len() ==> '0' <= #[trigger] s[i] <= '9') ==> digits_value(s)
            is None,
    decreases s.len(),
{
    if s.len() > 0 {
        let before = s.drop_last();
        lemma_digits(before);
        let n = s.len() - 1;
        assert(s[n] == s.last());
        if forall|i: int| 0 <= i < s.len() ==> '0' <= #[trigger] s[i] <= '9' {
            assert forall|i: int| 0 <= i < before.len() implies '0' <= #[trigger] before[i]
                <= '9' by {
                assert(before[i] == s[i]);
            }
        } else if forall|i: int| 0 <= i < before.len() ==> '0' <= #[trigger] before[i] <= '9' {
            let k = choose|k: int| 0 <= k < s.len() && !('0' <= #[trigger] s[k] <= '9');
            if k < n {
                assert(before[k] == s[k]);
            }
        }
    }
}

/// A number that was written in decimal notation reads back as itself.
pub proof fn numbers_read_back(n: u64)
    ensures
        number_of(text::decimal(n as nat)) == Some(n),
        number_of(seq!['+'] + text::decimal(n as nat)) == Some(n),
{
    let d = text::decimal(n as nat);
    text::decimal_stands_for_its_number(n as nat);
    numbers_are_digits(d, d);
    numbers_are_digits(seq!['+'] + d, d);
}

/// The names of a list go one by one, each on a line of its own behind two spaces.
pub proof fn names_go_line_by_line(a: Seq<Seq<char>>, b: Seq<Seq<char>>, name: Seq<char>)
    ensures
        indented(a + b) == indented(a) + indented(b),
        indented(seq![name]) == "  "@ + name + "\n"@,
    decreases b.len(),
{
    let one = seq![name];
    assert(one.drop_last() =~= Seq::<Seq<char>>::empty());
    assert(indented(one.drop_last()) =~= Seq::<char>::empty());
    assert(indented(one) =~= "  "@ + name + "\n"@);
    if b.len() == 0 {
        assert(a + b =~= a);
        assert(indented(a) + indented(b) =~= indented(a));
    } else {
        names_go_line_by_line(a, b.drop_last(), name);
        assert((a + b).drop_last() =~= a + b.drop_last());
        assert(indented(a + b) =~= indented(a) + indented(b));
    }
}

/// The report on devices has three parts: the microphones, the sources of system
/// audio, and those that are tried where it is left open, or that there are none.
pub proof fn report_has_three_parts(
    mic: Seq<Seq<char>>,
    sys: Seq<Seq<char>>,
    candidates: Seq<Seq<char>>,
)
    ensures
        ({
            let t = devices_text(mic, sys, candidates);
            let first = "Microphone sources:\n"@ + indented(mic);
            let second = "\nSystem-audio sources:\n"@ + indented(sys);
            let head = "\nSystem-audio auto-detect candidates (tried in order):\n"@;
            &&& text::begins(t, first + second + head)
            &&& candidates.len() == 0 ==> text::ends(t, head + "  (none found)\n"@) && t.len()
                == (first + second + head + "  (none found)\n"@).len()
            &&& candidates.len() > 0 ==> text::ends(t, head + indented(candidates)) && t.len()
                == (first + second + head + indented(candidates)).len()
        }),
{
    let t = devices_text(mic, sys, candidates);
    let first = "Microphone sources:\n"@ + indented(mic);
    let second = "\nSystem-audio sources:\n"@ + indented(sys);
    let head = "\nSystem-audio auto-detect candidates (tried in order):\n"@;
    let a = first + second + head;
    let rest = if candidates.len() == 0 {
        "  (none found)\n"@
    } else {
        indented(candidates)
    };
    assert(t =~= a + rest);
    assert(t.take(a.len() as int) =~= a);
    let b = head + rest;
    assert(t.skip(t.len() - b.len()) =~= b);
}

/// The tiers, the extensions of an output, and what tells a binary that cargo built.
pub proof fn words_of_the_command_line(word: Seq<char>, dir: Seq<char>, file: Seq<char>)
    ensures
        is_tier(word) <==> word == "standard"@ || word == "high"@ || word == "both"@,
        output_extensions().contains(word) <==> word == "md"@ || word == "markdown"@ || word
            == "mdown"@ || word == "mkd"@ || word == "txt"@ || word == "log"@,
        extension_error(word) == "unsupported output extension: ."@ + word
            + " (allowed: .md, .markdown, .mdown, .mkd, .txt, .log)"@,
        built_by_cargo(Some(dir + "/.cargo/"@ + file)),
        built_by_cargo(Some(dir + "\\.cargo\\"@ + file)),
        built_by_cargo(Some(word)) ==> text::occurs(word, "/.cargo/"@) || text::occurs(
            word,
            "\\.cargo\\"@,
        ),
        !built_by_cargo(None),
{
    let all = output_extensions();
    assert(all[0] == "md"@ && all[1] == "markdown"@ && all[2] == "mdown"@);
    assert(all[3] == "mkd"@ && all[4] == "txt"@ && all[5] == "log"@);
    text::parts_are_found(dir, "/.cargo/"@, file);
    text::parts_are_found(dir, "\\.cargo\\"@, file);
}

/// The arguments of a subcommand are those behind it, in order.
pub proof fn arguments_stand_behind(raw: Seq<Seq<char>>)
    requires
        raw.len() >= 2,
    ensures
        behind(raw).len() == raw.len() - 2,
        forall|i: int| 0 <= i < raw.len() - 2 ==> #[trigger] behind(raw)[i] == raw[i + 2],
{
}

/// An update names the tier that it installs, where there is one, and says where it
/// is made from source; the script gets the same two things and nothing else.
pub proof fn updates_pass_tier_and_source(tier: Seq<char>)
    ensures
        banner_text(None, false) == "==> Updating kotoma binary"@,
        banner_text(None, true) == "==> Updating kotoma binary, from source"@,
        banner_text(Some(tier), false) == "==> Updating kotoma binary (+ "@ + tier + " models)"@,
        banner_text(Some(tier), true) == "==> Updating kotoma binary (+ "@ + tier
            + " models), from source"@,
        script_text(false, Some(tier), false) == script_text(false, None, false) + " "@ + tier,
        script_text(false, Some(tier), true) == script_text(false, None, false) + " "@ + tier
            + " --from-source"@,
        script_text(false, None, true) == script_text(false, None, false) + " --from-source"@,
        script_text(true, Some(tier), false) == script_text(true, None, false) + " -Tier "@ + tier,
        script_text(true, Some(tier), true) == script_text(true, None, false) + " -Tier "@ + tier
            + " -FromSource"@,
        script_text(true, None, true) == script_text(true, None, false) + " -FromSource"@,
        script_text(false, None, false)
            == "curl -fsSL 'https://raw.githubusercontent.com/shohei81/kotoma/main/install.sh' | bash -s --"@,
        script_text(true, None, false)
            == "& ([scriptblock]::Create((irm -useb 'https://raw.githubusercontent.com/shohei81/kotoma/main/install.ps1')))"@,
{
    reveal_strlit("==> Updating kotoma binary");
    reveal_strlit(" (+ ");
    reveal_strlit(" models)");
    reveal_strlit(", from source");
    reveal_strlit("==> Updating kotoma binary, from source");
    reveal_strlit("==> Updating kotoma binary (+ ");
    reveal_strlit(" models), from source");
    assert(banner_text(None, false) =~= "==> Updating kotoma binary"@);
    assert(banner_text(None, true) =~= "==> Updating kotoma binary, from source"@);
    assert(banner_text(Some(tier), false) =~= "==> Updating kotoma binary (+ "@ + tier
        + " models)"@);
    assert(banner_text(Some(tier), true) =~= "==> Updating kotoma binary (+ "@ + tier
        + " models), from source"@);
    lemma_scripts(tier);
}

proof fn lemma_scripts(tier: Seq<char>)
    ensures
        script_text(false, Some(tier), false) == script_text(false, None, false) + " "@ + tier,
        script_text(false, Some(tier), true) == script_text(false, None, false) + " "@ + tier
            + " --from-source"@,
        script_text(false, None, true) == script_text(false, None, false) + " --from-source"@,
        script_text(true, Some(tier), false) == script_text(true, None, false) + " -Tier "@ + tier,
        script_text(true, Some(tier), true) == script_text(true, None, false) + " -Tier "@ + tier
            + " -FromSource"@,
        script_text(true, None, true) == script_text(true, None, false) + " -FromSource"@,
        script_text(false, None, false)
            == "curl -fsSL 'https://raw.githubusercontent.com/shohei81/kotoma/main/install.sh' | bash -s --"@,
        script_text(true, None, false)
            == "& ([scriptblock]::Create((irm -useb 'https://raw.githubusercontent.com/shohei81/kotoma/main/install.ps1')))"@,
{
    let unix = script_text(false, None, false);
    assert(script_text(false, Some(tier), false) =~= unix + " "@ + tier);
    assert(script_text(false, Some(tier), true) =~= unix + " "@ + tier + " --from-source"@);
    assert(script_text(false, None, true) =~= unix + " --from-source"@);
    let windows = script_text(true, None, false);
    assert(script_text(true, Some(tier), false) =~= windows + " -Tier "@ + tier);
    assert(script_text(true, Some(tier), true) =~= windows + " -Tier "@ + tier + " -FromSource"@);
    assert(script_text(true, None, true) =~= windows + " -FromSource"@);
    reveal_strlit("curl -fsSL '");
    reveal_strlit("https://raw.githubusercontent.com/shohei81/kotoma/main/install.sh");
    reveal_strlit("' | bash -s --");
    reveal_strlit("curl -fsSL 'https://raw.githubusercontent.com/shohei81/kotoma/main/install.sh' | bash -s --");
    reveal_strlit("& ([scriptblock]::Create((irm -useb '");
    reveal_strlit("https://raw.githubusercontent.com/shohei81/kotoma/main/install.ps1");
    reveal_strlit("')))");
    reveal_strlit("& ([scriptblock]::Create((irm -useb 'https://raw.githubusercontent.com/shohei81/kotoma/main/install.ps1')))");
    assert(unix =~= "curl -fsSL 'https://raw.githubusercontent.com/shohei81/kotoma/main/install.sh' | bash -s --"@);
    assert(windows =~= "& ([scriptblock]::Create((irm -useb 'https://raw.githubusercontent.com/shohei81/kotoma/main/install.ps1')))"@);
}

} // verus!

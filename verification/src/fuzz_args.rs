//! Command lines that the read-only fuzz harness runs: option values read leniently from
//! a fuzz case, and the argument vectors of each command built from them.
use vstd::prelude::*;
use crate::model::PlatformMode;
use crate::text::{ascii_lower, owned, same_text, to_ascii_lowercase, views};

verus! {

/// A text in ASCII lower case.
pub open spec fn lowered(s: Seq<char>) -> Seq<char> {
    s.map_values(|c: char| ascii_lower(c))
}

/// The platform mode a fuzz case names: `auto` and `windows` in any ASCII case, POSIX
/// otherwise.
pub open spec fn platform_mode_named(value: Seq<char>) -> PlatformMode {
    if lowered(value) == "auto"@ {
        PlatformMode::Auto
    } else if lowered(value) == "windows"@ {
        PlatformMode::Windows
    } else {
        PlatformMode::Posix
    }
}

/// The platform mode a fuzz case names.
pub fn platform_mode(value: &str) -> (r: PlatformMode)
    ensures
        r == platform_mode_named(value@),
{
    let v = to_ascii_lowercase(value);
    if same_text(v.as_str(), "auto") {
        PlatformMode::Auto
    } else if same_text(v.as_str(), "windows") {
        PlatformMode::Windows
    } else {
        PlatformMode::Posix
    }
}

/// The `--platform` value a fuzz case names.
pub open spec fn platform_arg_named(value: Seq<char>) -> Seq<char> {
    if lowered(value) == "auto"@ {
        "auto"@
    } else if lowered(value) == "windows"@ {
        "windows"@
    } else {
        "posix"@
    }
}

/// The `--platform` value a fuzz case names.
pub fn platform_arg(value: &str) -> (r: &'static str)
    ensures
        r@ == platform_arg_named(value@),
{
    let v = to_ascii_lowercase(value);
    if same_text(v.as_str(), "auto") {
        "auto"
    } else if same_text(v.as_str(), "windows") {
        "windows"
    } else {
        "posix"
    }
}

/// The `--shell` value a fuzz case names: `fish`, `pwsh` (also for `powershell`), `zsh`,
/// and `bash` otherwise.
pub open spec fn shell_arg_named(value: Seq<char>) -> Seq<char> {
    if lowered(value) == "fish"@ {
        "fish"@
    } else if lowered(value) == "pwsh"@ || lowered(value) == "powershell"@ {
        "pwsh"@
    } else if lowered(value) == "zsh"@ {
        "zsh"@
    } else {
        "bash"@
    }
}

/// The `--shell` value a fuzz case names.
pub fn shell_arg(value: &str) -> (r: &'static str)
    ensures
        r@ == shell_arg_named(value@),
{
    let v = to_ascii_lowercase(value);
    if same_text(v.as_str(), "fish") {
        "fish"
    } else if same_text(v.as_str(), "pwsh") || same_text(v.as_str(), "powershell") {
        "pwsh"
    } else if same_text(v.as_str(), "zsh") {
        "zsh"
    } else {
        "bash"
    }
}

/// The `--var` value a fuzz case names: `manpath`, and `path` otherwise.
pub open spec fn variable_arg_named(value: Seq<char>) -> Seq<char> {
    if lowered(value) == "manpath"@ {
        "manpath"@
    } else {
        "path"@
    }
}

/// The `--var` value a fuzz case names.
pub fn variable_arg(value: &str) -> (r: &'static str)
    ensures
        r@ == variable_arg_named(value@),
{
    let v = to_ascii_lowercase(value);
    if same_text(v.as_str(), "manpath") {
        "manpath"
    } else {
        "path"
    }
}

/// The `--preset` value a fuzz case names, if it names one.
pub open spec fn preset_arg_named(value: Seq<char>) -> Option<Seq<char>> {
    let l = lowered(value);
    if l == "homebrew"@ || l == "cargo"@ || l == "pyenv"@ || l == "fink"@ {
        Some(l)
    } else {
        None
    }
}

/// The `--preset` value a fuzz case names, if it names one.
pub fn preset_arg(value: &str) -> (r: Option<&'static str>)
    ensures
        (match r {
            Some(p) => Some(p@),
            None => None::<Seq<char>>,
        }) == preset_arg_named(value@),
{
    let v = to_ascii_lowercase(value);
    if same_text(v.as_str(), "homebrew") {
        Some("homebrew")
    } else if same_text(v.as_str(), "cargo") {
        Some("cargo")
    } else if same_text(v.as_str(), "pyenv") {
        Some("pyenv")
    } else if same_text(v.as_str(), "fink") {
        Some("fink")
    } else {
        None
    }
}

/// The option values of the command lines of one fuzz case.
#[derive(Clone, Debug, PartialEq, Eq)]
pub struct CliArgContext {
    /// `--platform` value.
    pub platform: String,
    /// `--var` value.
    pub variable: String,
    /// `--shell` value.
    pub shell: String,
    /// `--profile` value for `apply`, if any.
    pub profile: Option<String>,
    /// `--drop` values.
    pub drop_entries: Vec<String>,
    /// `--preset` value, if any.
    pub preset: Option<String>,
    /// Whether to ask for JSON.
    pub json: bool,
}

/// `--json` when asked for.
pub open spec fn json_flag(json: bool) -> Seq<Seq<char>> {
    if json {
        seq!["--json"@]
    } else {
        Seq::<Seq<char>>::empty()
    }
}

/// A `--drop` option for each entry, then the `--preset` option if any.
pub open spec fn policy_args(drop_entries: Seq<Seq<char>>, preset: Option<Seq<char>>) -> Seq<
    Seq<char>,
>
    decreases drop_entries.len(),
{
    if drop_entries.len() == 0 {
        match preset {
            Some(p) => seq!["--preset"@, p],
            None => Seq::<Seq<char>>::empty(),
        }
    } else {
        seq!["--drop"@, drop_entries[0]] + policy_args(drop_entries.drop_first(), preset)
    }
}

/// The arguments of `print`.
pub open spec fn print_argv(platform: Seq<char>, variable: Seq<char>, json: bool) -> Seq<Seq<char>> {
    seq!["print"@, "--platform"@, platform, "--var"@, variable] + json_flag(json)
}

/// The arguments of `doctor`.
pub open spec fn doctor_argv(
    platform: Seq<char>,
    variable: Seq<char>,
    drop_entries: Seq<Seq<char>>,
    preset: Option<Seq<char>>,
    json: bool,
) -> Seq<Seq<char>> {
    seq!["doctor"@, "--platform"@, platform, "--var"@, variable] + policy_args(
        drop_entries,
        preset,
    ) + json_flag(json)
}

/// The arguments of `clean --stdout`.
pub open spec fn clean_argv(
    platform: Seq<char>,
    variable: Seq<char>,
    drop_entries: Seq<Seq<char>>,
    preset: Option<Seq<char>>,
) -> Seq<Seq<char>> {
    seq!["clean"@, "--stdout"@, "--platform"@, platform, "--var"@, variable] + policy_args(
        drop_entries,
        preset,
    )
}

/// The arguments of `clean --export`.
pub open spec fn clean_export_argv(
    platform: Seq<char>,
    variable: Seq<char>,
    shell: Seq<char>,
    drop_entries: Seq<Seq<char>>,
    preset: Option<Seq<char>>,
) -> Seq<Seq<char>> {
    seq![
        "clean"@,
        "--export"@,
        "--shell"@,
        shell,
        "--platform"@,
        platform,
        "--var"@,
        variable,
    ] + policy_args(drop_entries, preset)
}

/// The arguments of `completions`.
pub open spec fn completions_argv(shell: Seq<char>) -> Seq<Seq<char>> {
    seq!["completions"@, shell]
}

/// The arguments of `apply --dry-run`.
pub open spec fn apply_argv(
    platform: Seq<char>,
    shell: Seq<char>,
    profile: Option<Seq<char>>,
    drop_entries: Seq<Seq<char>>,
    preset: Option<Seq<char>>,
    json: bool,
) -> Seq<Seq<char>> {
    seq!["apply"@, "--dry-run"@, "--shell"@, shell, "--platform"@, platform] + (match profile {
        Some(p) => seq!["--profile"@, p],
        None => Seq::<Seq<char>>::empty(),
    }) + policy_args(drop_entries, preset) + json_flag(json)
}

/// The view of an optional string.
pub open spec fn opt_view(o: Option<String>) -> Option<Seq<char>> {
    match o {
        Some(s) => Some(s@),
        None => None,
    }
}

/// Appends one argument.
fn push_arg(args: &mut Vec<String>, arg: &str)
    ensures
        views(final(args)@) == views(old(args)@).push(arg@),
{
    let ghost before = views(args@);
    args.push(owned(arg));
    assert(views(args@) == before.push(arg@));
}

/// Appends `--json` when asked for.
fn push_json_flag(args: &mut Vec<String>, json: bool)
    ensures
        views(final(args)@) == views(old(args)@) + json_flag(json),
{
    if json {
        push_arg(args, "--json");
    } else {
        assert(views(args@) + Seq::<Seq<char>>::empty() == views(args@));
    }
}

/// Appends a `--drop` option for each entry, then the `--preset` option if any.
pub fn append_policy_args(args: &mut Vec<String>, drop_entries: &[String], preset: Option<&str>)
    ensures
        views(final(args)@) == views(old(args)@) + policy_args(
            views(drop_entries@),
            match preset {
                Some(p) => Some(p@),
                None => None,
            },
        ),
{
    let ghost pv = match preset {
        Some(p) => Some(p@),
        None => None::<Seq<char>>,
    };
    let ghost before = views(args@);
    let ghost ds = views(drop_entries@);
    let mut i: usize = 0;
    assert(ds.skip(0) == ds);
    while i < drop_entries.len()
        invariant
            i <= drop_entries.len(),
            ds == views(drop_entries@),
            before + policy_args(ds, pv) == views(args@) + policy_args(ds.skip(i as int), pv),
        decreases drop_entries.len() - i,
    {
        let ghost rest = ds.skip(i as int);
        assert(rest.drop_first() == ds.skip(i + 1));
        assert(rest[0] == drop_entries@[i as int]@);
        let ghost mid = views(args@);
        push_arg(args, "--drop");
        push_arg(args, drop_entries[i].as_str());
        assert(mid + policy_args(rest, pv) == mid + (seq!["--drop"@, rest[0]] + policy_args(
            rest.drop_first(),
            pv,
        )));
        assert(mid + (seq!["--drop"@, rest[0]] + policy_args(rest.drop_first(), pv)) == mid.push(
            "--drop"@,
        ).push(rest[0]) + policy_args(rest.drop_first(), pv));
        i += 1;
    }
    assert(ds.skip(drop_entries.len() as int).len() == 0);
    match preset {
        Some(p) => {
            let ghost mid = views(args@);
            push_arg(args, "--preset");
            push_arg(args, p);
            assert(mid + seq!["--preset"@, p@] == mid.push("--preset"@).push(p@));
        },
        None => {
            assert(views(args@) + Seq::<Seq<char>>::empty() == views(args@));
        },
    }
}

/// Arguments from a fixed list of literals.
fn args_of(first: &[&str]) -> (r: Vec<String>)
    ensures
        views(r@) == first@.map_values(|s: &str| s@),
{
    let mut r: Vec<String> = Vec::new();
    let mut i: usize = 0;
    while i < first.len()
        invariant
            i <= first.len(),
            views(r@) == first@.take(i as int).map_values(|s: &str| s@),
        decreases first.len() - i,
    {
        push_arg(&mut r, first[i]);
        assert(first@.take(i + 1).map_values(|s: &str| s@) == first@.take(i as int).map_values(
            |s: &str| s@,
        ).push(first@[i as int]@));
        i += 1;
    }
    assert(first@.take(first.len() as int) == first@);
    r
}

/// The arguments of `print`.
pub fn print_args(platform: &str, variable: &str, json: bool) -> (r: Vec<String>)
    ensures
        views(r@) == print_argv(platform@, variable@, json),
{
    let mut args = args_of(&["print", "--platform", platform, "--var", variable]);
    push_json_flag(&mut args, json);
    args
}

/// The view of an optional text.
pub open spec fn opt_str_view(o: Option<&str>) -> Option<Seq<char>> {
    match o {
        Some(s) => Some(s@),
        None => None,
    }
}

/// The arguments of `doctor`.
pub fn doctor_args(
    platform: &str,
    variable: &str,
    drop_entries: &[String],
    preset: Option<&str>,
    json: bool,
) -> (r: Vec<String>)
    ensures
        views(r@) == doctor_argv(
            platform@,
            variable@,
            views(drop_entries@),
            opt_str_view(preset),
            json,
        ),
{
    let mut args = args_of(&["doctor", "--platform", platform, "--var", variable]);
    append_policy_args(&mut args, drop_entries, preset);
    push_json_flag(&mut args, json);
    args
}

/// The arguments of `clean --stdout`.
pub fn clean_args(
    platform: &str,
    variable: &str,
    drop_entries: &[String],
    preset: Option<&str>,
) -> (r: Vec<String>)
    ensures
        views(r@) == clean_argv(platform@, variable@, views(drop_entries@), opt_str_view(preset)),
{
    let mut args = args_of(&["clean", "--stdout", "--platform", platform, "--var", variable]);
    append_policy_args(&mut args, drop_entries, preset);
    args
}

/// The arguments of `clean --export`.
pub fn clean_export_args(
    platform: &str,
    variable: &str,
    shell: &str,
    drop_entries: &[String],
    preset: Option<&str>,
) -> (r: Vec<String>)
    ensures
        views(r@) == clean_export_argv(
            platform@,
            variable@,
            shell@,
            views(drop_entries@),
            opt_str_view(preset),
        ),
{
    let mut args = args_of(
        &["clean", "--export", "--shell", shell, "--platform", platform, "--var", variable],
    );
    append_policy_args(&mut args, drop_entries, preset);
    args
}

/// The arguments of `completions`.
pub fn completions_args(shell: &str) -> (r: Vec<String>)
    ensures
        views(r@) == completions_argv(shell@),
{
    args_of(&["completions", shell])
}

/// The arguments of `apply --dry-run`.
pub fn apply_args(
    platform: &str,
    shell: &str,
    profile: Option<&str>,
    drop_entries: &[String],
    preset: Option<&str>,
    json: bool,
) -> (r: Vec<String>)
    ensures
        views(r@) == apply_argv(
            platform@,
            shell@,
            opt_str_view(profile),
            views(drop_entries@),
            opt_str_view(preset),
            json,
        ),
{
    let mut args = args_of(&["apply", "--dry-run", "--shell", shell, "--platform", platform]);
    let ghost head = views(args@);
    match profile {
        Some(p) => {
            push_arg(&mut args, "--profile");
            push_arg(&mut args, p);
            assert(views(args@) == head + seq!["--profile"@, p@]);
        },
        None => {
            assert(views(args@) == head + Seq::<Seq<char>>::empty());
        },
    }
    append_policy_args(&mut args, drop_entries, preset);
    push_json_flag(&mut args, json);
    args
}

/// An optional owned text as a text slice.
fn opt_as_str(o: &Option<String>) -> (r: Option<&str>)
    ensures
        opt_str_view(r) == opt_view(*o),
{
    match o {
        Some(s) => Some(s.as_str()),
        None => None,
    }
}

/// The command lines of a fuzz case: the one its command mode names (`print`, `doctor`,
/// `clean`, `clean_export`, `apply`, `completions`), or all of them in that order.
pub open spec fn cli_argvs(mode: Option<Seq<char>>, c: CliArgContext) -> Seq<Seq<Seq<char>>> {
    let print = print_argv(c.platform@, c.variable@, c.json);
    let doctor = doctor_argv(
        c.platform@,
        c.variable@,
        views(c.drop_entries@),
        opt_view(c.preset),
        c.json,
    );
    let clean = clean_argv(c.platform@, c.variable@, views(c.drop_entries@), opt_view(c.preset));
    let export = clean_export_argv(
        c.platform@,
        c.variable@,
        c.shell@,
        views(c.drop_entries@),
        opt_view(c.preset),
    );
    let apply = apply_argv(
        c.platform@,
        c.shell@,
        opt_view(c.profile),
        views(c.drop_entries@),
        opt_view(c.preset),
        c.json,
    );
    let completions = completions_argv(c.shell@);
    match mode {
        Some(m) => if m == "print"@ {
            seq![print]
        } else if m == "doctor"@ {
            seq![doctor]
        } else if m == "clean"@ {
            seq![clean]
        } else if m == "clean_export"@ {
            seq![export]
        } else if m == "apply"@ {
            seq![apply]
        } else if m == "completions"@ {
            seq![completions]
        } else {
            seq![print, doctor, clean, export, apply, completions]
        },
        None => seq![print, doctor, clean, export, apply, completions],
    }
}

/// The views of argument vectors.
pub open spec fn argv_views(v: Seq<Vec<String>>) -> Seq<Seq<Seq<char>>> {
    v.map_values(|a: Vec<String>| views(a@))
}

/// Appends one command line.
fn push_argv(all: &mut Vec<Vec<String>>, args: Vec<String>)
    ensures
        argv_views(final(all)@) == argv_views(old(all)@).push(views(args@)),
{
    let ghost before = argv_views(all@);
    let ghost v = views(args@);
    all.push(args);
    assert(argv_views(all@) == before.push(v));
}

/// The command lines of a fuzz case.
pub fn cli_args(command_mode: &Option<String>, context: &CliArgContext) -> (r: Vec<Vec<String>>)
    ensures
        argv_views(r@) == cli_argvs(opt_view(*command_mode), *context),
{
    let c = context;
    let platform = c.platform.as_str();
    let variable = c.variable.as_str();
    let shell = c.shell.as_str();
    let drops = c.drop_entries.as_slice();
    let preset = opt_as_str(&c.preset);
    let profile = opt_as_str(&c.profile);
    let mut all: Vec<Vec<String>> = Vec::new();
    assert(argv_views(all@) == Seq::<Seq<Seq<char>>>::empty());
    let mode = match command_mode {
        Some(m) => m.as_str(),
        None => "",
    };
    let named = command_mode.is_some();
    if named && same_text(mode, "print") {
        push_argv(&mut all, print_args(platform, variable, c.json));
    } else if named && same_text(mode, "doctor") {
        push_argv(&mut all, doctor_args(platform, variable, drops, preset, c.json));
    } else if named && same_text(mode, "clean") {
        push_argv(&mut all, clean_args(platform, variable, drops, preset));
    } else if named && same_text(mode, "clean_export") {
        push_argv(&mut all, clean_export_args(platform, variable, shell, drops, preset));
    } else if named && same_text(mode, "apply") {
        push_argv(&mut all, apply_args(platform, shell, profile, drops, preset, c.json));
    } else if named && same_text(mode, "completions") {
        push_argv(&mut all, completions_args(shell));
    } else {
        push_argv(&mut all, print_args(platform, variable, c.json));
        push_argv(&mut all, doctor_args(platform, variable, drops, preset, c.json));
        push_argv(&mut all, clean_args(platform, variable, drops, preset));
        push_argv(&mut all, clean_export_args(platform, variable, shell, drops, preset));
        push_argv(&mut all, apply_args(platform, shell, profile, drops, preset, c.json));
        push_argv(&mut all, completions_args(shell));
    }
    all
}

// ----- fuzz case bounds -----

/// The longest input text a fuzz case keeps, in UTF-8 bytes.
pub const MAX_INPUT_LEN: usize = 4096;

/// The number of UTF-8 bytes of a character.
pub open spec fn utf8_width(c: char) -> nat {
    if (c as u32) < 0x80 {
        1
    } else if (c as u32) < 0x800 {
        2
    } else if (c as u32) < 0x10000 {
        3
    } else {
        4
    }
}

/// How many leading characters fit in `budget` UTF-8 bytes.
pub open spec fn fitting_chars(s: Seq<char>, budget: int) -> nat
    decreases s.len(),
{
    if s.len() == 0 || (utf8_width(s[0]) as int) > budget {
        0
    } else {
        1 + fitting_chars(s.drop_first(), budget - utf8_width(s[0]))
    }
}

/// A text cut to at most `max_len` UTF-8 bytes, at a character boundary.
pub open spec fn truncated(s: Seq<char>, max_len: nat) -> Seq<char> {
    s.take(fitting_chars(s, max_len as int) as int)
}

/// The number of UTF-8 bytes of a character.
pub(crate) fn char_width(c: char) -> (r: usize)
    ensures
        r == utf8_width(c),
{
    let code = c as u32;
    if code < 0x80 {
        1
    } else if code < 0x800 {
        2
    } else if code < 0x10000 {
        3
    } else {
        4
    }
}

/// A text cut to at most `max_len` UTF-8 bytes, at a character boundary.
pub fn truncate_string(value: String, max_len: usize) -> (r: String)
    ensures
        r@ == truncated(value@, max_len as nat),
{
    let chars = crate::text::chars_of(value.as_str());
    let mut budget: usize = max_len;
    let mut k: usize = 0;
    assert(chars@.skip(0) == chars@);
    while k < chars.len() && char_width(chars[k]) <= budget
        invariant
            k <= chars.len(),
            chars@ == value@,
            fitting_chars(value@, max_len as int) == k + fitting_chars(
                value@.skip(k as int),
                budget as int,
            ),
        decreases chars.len() - k,
    {
        let w = char_width(chars[k]);
        proof {
            let rest = value@.skip(k as int);
            assert(rest[0] == chars@[k as int]);
            assert(rest.drop_first() == value@.skip(k + 1));
        }
        budget = budget - w;
        k += 1;
    }
    proof {
        let rest = value@.skip(k as int);
        if k < chars.len() {
            assert(rest[0] == chars@[k as int]);
        } else {
            assert(rest.len() == 0);
        }
        assert(fitting_chars(rest, budget as int) == 0);
    }
    let r = crate::text::substring(&chars, 0, k);
    assert(chars@.subrange(0, k as int) == value@.take(k as int));
    r
}

/// The values of a fuzz case.
#[derive(Clone, Debug, PartialEq, Eq)]
pub struct PathCase {
    /// PATH value.
    pub path: String,
    /// Platform name.
    pub platform: String,
    /// PATHEXT value.
    pub pathext: Option<String>,
    /// Whether to ask for JSON.
    pub json: bool,
    /// The command to run, if only one.
    pub command_mode: Option<String>,
    /// MANPATH value.
    pub manpath: String,
    /// Variable name.
    pub variable: String,
    /// Entries to drop.
    pub drop_entries: Vec<String>,
    /// Preset name.
    pub preset: String,
    /// Shell name.
    pub shell: String,
    /// Profile kind to prepare for `apply`.
    pub profile_mode: String,
}

/// The texts of a fuzz case cut to bounds: PATH, PATHEXT, MANPATH and the first four drop
/// entries to `MAX_INPUT_LEN` bytes each, further drop entries left out.
pub fn bounded_case(case: PathCase) -> (r: PathCase)
    ensures
        r.path@ == truncated(case.path@, MAX_INPUT_LEN as nat),
        opt_view(r.pathext) == (match case.pathext {
            Some(p) => Some(truncated(p@, MAX_INPUT_LEN as nat)),
            None => None,
        }),
        r.manpath@ == truncated(case.manpath@, MAX_INPUT_LEN as nat),
        views(r.drop_entries@) == views(case.drop_entries@).take(
            if case.drop_entries@.len() < 4 {
                case.drop_entries@.len() as int
            } else {
                4
            },
        ).map_values(|e: Seq<char>| truncated(e, MAX_INPUT_LEN as nat)),
        r.platform == case.platform,
        r.json == case.json,
        r.command_mode == case.command_mode,
        r.variable == case.variable,
        r.preset == case.preset,
        r.shell == case.shell,
        r.profile_mode == case.profile_mode,
{
    let PathCase {
        path,
        platform,
        pathext,
        json,
        command_mode,
        manpath,
        variable,
        drop_entries,
        preset,
        shell,
        profile_mode,
    } = case;
    let path = truncate_string(path, MAX_INPUT_LEN);
    let pathext = match pathext {
        Some(p) => Some(truncate_string(p, MAX_INPUT_LEN)),
        None => None,
    };
    let manpath = truncate_string(manpath, MAX_INPUT_LEN);
    let n: usize = if drop_entries.len() < 4 {
        drop_entries.len()
    } else {
        4
    };
    let ghost dv = views(drop_entries@);
    let mut kept: Vec<String> = Vec::new();
    let mut i: usize = 0;
    while i < n
        invariant
            i <= n,
            n <= drop_entries.len(),
            dv == views(drop_entries@),
            views(kept@) == dv.take(i as int).map_values(
                |e: Seq<char>| truncated(e, MAX_INPUT_LEN as nat),
            ),
        decreases n - i,
    {
        let e = truncate_string(drop_entries[i].clone(), MAX_INPUT_LEN);
        let ghost before = views(kept@);
        kept.push(e);
        assert(views(kept@) == before.push(e@));
        assert(dv.take(i + 1).map_values(|e: Seq<char>| truncated(e, MAX_INPUT_LEN as nat))
            == dv.take(i as int).map_values(|e: Seq<char>| truncated(e, MAX_INPUT_LEN as nat)).push(
            truncated(dv[i as int], MAX_INPUT_LEN as nat),
        ));
        i += 1;
    }
    PathCase {
        path,
        platform,
        pathext,
        json,
        command_mode,
        manpath,
        variable,
        drop_entries: kept,
        preset,
        shell,
        profile_mode,
    }
}

// ----- fuzz cases from raw input -----

/// What `String::from_utf8_lossy` makes of bytes: their text, with each invalid sequence
/// replaced by U+FFFD.
pub uninterp spec fn lossy_text(bytes: Seq<u8>) -> Seq<char>;

/// Decodes bytes with `String::from_utf8_lossy`: valid UTF-8 gives the text it encodes;
/// what is made of invalid sequences is named, not stated.
#[verifier::external_body]
fn utf8_lossy(bytes: &[u8]) -> (r: String)
    ensures
        r@ == lossy_text(bytes@),
        vstd::utf8::valid_utf8(bytes@) ==> r@ == vstd::utf8::decode_utf8(bytes@),
{
    String::from_utf8_lossy(bytes).into_owned()
}

/// The number of leading input bytes that a fuzz case reads as a PATH value.
pub open spec fn input_prefix_len(len: nat) -> int {
    if len < MAX_INPUT_LEN {
        len as int
    } else {
        MAX_INPUT_LEN as int
    }
}

/// The fuzz case of an input that is not a JSON case: its first `MAX_INPUT_LEN` bytes,
/// decoded leniently, as the PATH value, under POSIX rules and for bash, with nothing else
/// asked for.
pub fn fallback_case(data: &[u8]) -> (r: PathCase)
    ensures
        r.path@ == lossy_text(data@.subrange(0, input_prefix_len(data@.len()))),
        r.platform@ == "posix"@,
        r.pathext is None,
        !r.json,
        r.command_mode is None,
        r.manpath@.len() == 0,
        r.variable@.len() == 0,
        r.drop_entries@.len() == 0,
        r.preset@.len() == 0,
        r.shell@ == "bash"@,
        r.profile_mode@.len() == 0,
{
    let n: usize = if data.len() < MAX_INPUT_LEN {
        data.len()
    } else {
        MAX_INPUT_LEN
    };
    let head = vstd::slice::slice_subrange(data, 0, n);
    PathCase {
        path: utf8_lossy(head),
        platform: owned("posix"),
        pathext: None,
        json: false,
        command_mode: None,
        manpath: String::new(),
        variable: String::new(),
        drop_entries: Vec::new(),
        preset: String::new(),
        shell: owned("bash"),
        profile_mode: String::new(),
    }
}

/// `r` is `case` cut to bounds, as `bounded_case` cuts it.
pub open spec fn is_bounded(case: PathCase, r: PathCase) -> bool {
    &&& r.path@ == truncated(case.path@, MAX_INPUT_LEN as nat)
    &&& opt_view(r.pathext) == (match case.pathext {
        Some(p) => Some(truncated(p@, MAX_INPUT_LEN as nat)),
        None => None,
    })
    &&& r.manpath@ == truncated(case.manpath@, MAX_INPUT_LEN as nat)
    &&& views(r.drop_entries@) == views(case.drop_entries@).take(
        if case.drop_entries@.len() < 4 {
            case.drop_entries@.len() as int
        } else {
            4
        },
    ).map_values(|e: Seq<char>| truncated(e, MAX_INPUT_LEN as nat))
    &&& r.platform == case.platform
    &&& r.json == case.json
    &&& r.command_mode == case.command_mode
    &&& r.variable == case.variable
    &&& r.preset == case.preset
    &&& r.shell == case.shell
    &&& r.profile_mode == case.profile_mode
}

/// The fuzz case of an input: the JSON case read from it when there is one, else the
/// case of its raw bytes (see `fallback_case`), cut to bounds either way.
pub fn path_case_from_input(parsed: Option<PathCase>, data: &[u8]) -> (r: PathCase)
    ensures
        parsed matches Some(c) ==> is_bounded(c, r),
        parsed is None ==> {
            &&& r.path@ == truncated(
                lossy_text(data@.subrange(0, input_prefix_len(data@.len()))),
                MAX_INPUT_LEN as nat,
            )
            &&& r.platform@ == "posix"@
            &&& r.pathext is None
            &&& !r.json
            &&& r.command_mode is None
            &&& r.manpath@.len() == 0
            &&& r.variable@.len() == 0
            &&& r.drop_entries@.len() == 0
            &&& r.preset@.len() == 0
            &&& r.shell@ == "bash"@
            &&& r.profile_mode@.len() == 0
        },
{
    let case = match parsed {
        Some(c) => c,
        None => fallback_case(data),
    };
    let r = bounded_case(case);
    proof {
        if parsed is None {
            assert(views(case.drop_entries@).take(0) =~= Seq::<Seq<char>>::empty());
            assert(views(r.drop_entries@).len() == r.drop_entries@.len());
            assert(fitting_chars(Seq::<char>::empty(), MAX_INPUT_LEN as int) == 0);
            assert(case.manpath@.take(0) =~= case.manpath@);
        }
    }
    r
}

// ----- fuzz profiles -----

/// The profile a fuzz case prepares for `apply`.
#[derive(Clone, Debug, PartialEq, Eq)]
pub enum ProfileSetup {
    /// No file at the profile path.
    Absent,
    /// A file with this text.
    Text(String),
    /// A directory at the profile path.
    Directory,
}

/// The text of a prepared profile file, or what stands at its path, for a profile mode:
/// a profile to append to, one with a block to replace, one with a malformed block, one
/// with two blocks, a directory, and nothing otherwise.
pub open spec fn profile_setup_of(mode: Seq<char>) -> Option<Option<Seq<char>>> {
    if mode == "append"@ {
        Some(Some("export PATH=\"$HOME/bin:$PATH\"\n"@))
    } else if mode == "replace"@ {
        Some(Some("# >>> patholog PATH >>>\nexport PATH='/old'\n# <<< patholog PATH <<<\n"@))
    } else if mode == "malformed"@ {
        Some(Some("# >>> patholog PATH >>>\nexport PATH='/old'\n"@))
    } else if mode == "duplicate"@ {
        Some(
            Some(
                "# >>> patholog PATH >>>\nexport PATH='/old'\n# <<< patholog PATH <<<\n# >>> patholog PATH >>>\nexport PATH='/old'\n# <<< patholog PATH <<<\n"@,
            ),
        )
    } else if mode == "non_file"@ {
        Some(None)
    } else {
        None
    }
}

/// What a profile mode prepares: `Some(Some(text))` a file, `Some(None)` a directory,
/// `None` nothing.
pub open spec fn setup_view(s: ProfileSetup) -> Option<Option<Seq<char>>> {
    match s {
        ProfileSetup::Absent => None,
        ProfileSetup::Text(t) => Some(Some(t@)),
        ProfileSetup::Directory => Some(None),
    }
}

/// The profile a fuzz case prepares for `apply`.
pub fn profile_setup(mode: &str) -> (r: ProfileSetup)
    ensures
        setup_view(r) == profile_setup_of(mode@),
{
    if same_text(mode, "append") {
        ProfileSetup::Text(owned("export PATH=\"$HOME/bin:$PATH\"\n"))
    } else if same_text(mode, "replace") {
        ProfileSetup::Text(owned("# >>> patholog PATH >>>\nexport PATH='/old'\n# <<< patholog PATH <<<\n"))
    } else if same_text(mode, "malformed") {
        ProfileSetup::Text(owned("# >>> patholog PATH >>>\nexport PATH='/old'\n"))
    } else if same_text(mode, "duplicate") {
        ProfileSetup::Text(
            owned(
                "# >>> patholog PATH >>>\nexport PATH='/old'\n# <<< patholog PATH <<<\n# >>> patholog PATH >>>\nexport PATH='/old'\n# <<< patholog PATH <<<\n",
            ),
        )
    } else if same_text(mode, "non_file") {
        ProfileSetup::Directory
    } else {
        ProfileSetup::Absent
    }
}

} // verus!

verus! {

/// An argument that is not one of the flags that let `apply` write.
pub open spec fn read_only_arg(a: Seq<char>) -> bool {
    a != "--yes"@ && a != "--no-backup"@
}

/// A command line without the flags that let `apply` write.
pub open spec fn read_only_argv(v: Seq<Seq<char>>) -> bool {
    forall|i: int| 0 <= i < v.len() ==> read_only_arg(#[trigger] v[i])
}

/// The option values of a fuzz case are none of the flags that let `apply` write.
pub open spec fn read_only_values(c: CliArgContext) -> bool {
    &&& read_only_arg(c.platform@)
    &&& read_only_arg(c.variable@)
    &&& read_only_arg(c.shell@)
    &&& (c.profile matches Some(p) ==> read_only_arg(p@))
    &&& (c.preset matches Some(p) ==> read_only_arg(p@))
    &&& forall|i: int| 0 <= i < c.drop_entries@.len() ==> read_only_arg(#[trigger] c.drop_entries@[i]@)
}

/// The literals of the fuzz command lines are not the writing flags.
proof fn lemma_literals_read_only()
    ensures
        read_only_arg("print"@),
        read_only_arg("doctor"@),
        read_only_arg("clean"@),
        read_only_arg("apply"@),
        read_only_arg("completions"@),
        read_only_arg("--platform"@),
        read_only_arg("--var"@),
        read_only_arg("--json"@),
        read_only_arg("--drop"@),
        read_only_arg("--preset"@),
        read_only_arg("--stdout"@),
        read_only_arg("--export"@),
        read_only_arg("--shell"@),
        read_only_arg("--dry-run"@),
        read_only_arg("--profile"@),
{
    reveal_strlit("--yes");
    reveal_strlit("--no-backup");
    reveal_strlit("print");
    reveal_strlit("doctor");
    reveal_strlit("clean");
    reveal_strlit("apply");
    reveal_strlit("completions");
    reveal_strlit("--platform");
    reveal_strlit("--var");
    reveal_strlit("--json");
    reveal_strlit("--drop");
    reveal_strlit("--preset");
    reveal_strlit("--stdout");
    reveal_strlit("--export");
    reveal_strlit("--shell");
    reveal_strlit("--dry-run");
    reveal_strlit("--profile");
    assert("--json"@[2] != "--yes"@[2]);
    assert("--drop"@[2] != "--yes"@[2]);
    assert("--stdout"@[2] != "--yes"@[2]);
    assert("--shell"@[2] != "--yes"@[2]);
    assert("--profile"@[2] != "--yes"@[2]);
    assert("--dry-run"@[2] != "--no-backup"@[2]);
}

/// Joining command-line pieces without writing flags gives one without them.
proof fn lemma_concat_read_only(a: Seq<Seq<char>>, b: Seq<Seq<char>>)
    requires
        read_only_argv(a),
        read_only_argv(b),
    ensures
        read_only_argv(a + b),
{
    assert forall|i: int| 0 <= i < (a + b).len() implies read_only_arg(#[trigger] (a + b)[i]) by {
        if i < a.len() {
            assert((a + b)[i] == a[i]);
        } else {
            assert((a + b)[i] == b[i - a.len()]);
        }
    }
}

/// The policy options hold only their flags and the given values.
proof fn lemma_policy_read_only(ds: Seq<Seq<char>>, preset: Option<Seq<char>>)
    requires
        forall|i: int| 0 <= i < ds.len() ==> read_only_arg(#[trigger] ds[i]),
        preset matches Some(p) ==> read_only_arg(p),
    ensures
        read_only_argv(policy_args(ds, preset)),
    decreases ds.len(),
{
    lemma_literals_read_only();
    if ds.len() > 0 {
        assert forall|i: int| 0 <= i < ds.drop_first().len() implies read_only_arg(
            #[trigger] ds.drop_first()[i],
        ) by {
            assert(ds.drop_first()[i] == ds[i + 1]);
        }
        lemma_policy_read_only(ds.drop_first(), preset);
        assert(read_only_arg(ds[0]));
        lemma_concat_read_only(seq!["--drop"@, ds[0]], policy_args(ds.drop_first(), preset));
    }
}

/// The fuzz harness stays read-only and covers every command: when no option value of a
/// case is itself `--yes` or `--no-backup`, none of its command lines holds either flag;
/// a command mode naming `print`, `doctor`, `clean`, `clean_export`, `apply` or
/// `completions` gives that one command line, and any other mode gives all six, in that
/// order, with `clean --stdout`, `clean --export` and `apply --dry-run`.
pub proof fn law_fuzz_command_lines_are_read_only(mode: Option<Seq<char>>, c: CliArgContext)
    requires
        read_only_values(c),
    ensures
        forall|k: int|
            0 <= k < cli_argvs(mode, c).len() ==> read_only_argv(#[trigger] cli_argvs(mode, c)[k]),
        (mode matches Some(m) && (m == "print"@ || m == "doctor"@ || m == "clean"@ || m
            == "clean_export"@ || m == "apply"@ || m == "completions"@)) ==> cli_argvs(
            mode,
            c,
        ).len() == 1,
        !(mode matches Some(m) && (m == "print"@ || m == "doctor"@ || m == "clean"@ || m
            == "clean_export"@ || m == "apply"@ || m == "completions"@)) ==> {
            let all = cli_argvs(mode, c);
            &&& all.len() == 6
            &&& all[0][0] == "print"@
            &&& all[1][0] == "doctor"@
            &&& all[2][0] == "clean"@ && all[2][1] == "--stdout"@
            &&& all[3][0] == "clean"@ && all[3][1] == "--export"@
            &&& all[4][0] == "apply"@ && all[4][1] == "--dry-run"@
            &&& all[5][0] == "completions"@
        },
{
    lemma_literals_read_only();
    let ds = views(c.drop_entries@);
    assert forall|i: int| 0 <= i < ds.len() implies read_only_arg(#[trigger] ds[i]) by {
        assert(ds[i] == c.drop_entries@[i]@);
    }
    let pv = opt_view(c.preset);
    lemma_policy_read_only(ds, pv);
    let pol = policy_args(ds, pv);
    let jf = json_flag(c.json);
    assert(read_only_argv(jf));
    let p5 = seq!["print"@, "--platform"@, c.platform@, "--var"@, c.variable@];
    assert(read_only_argv(p5));
    lemma_concat_read_only(p5, jf);
    let d5 = seq!["doctor"@, "--platform"@, c.platform@, "--var"@, c.variable@];
    assert(read_only_argv(d5));
    lemma_concat_read_only(d5, pol);
    lemma_concat_read_only(d5 + pol, jf);
    let c6 = seq!["clean"@, "--stdout"@, "--platform"@, c.platform@, "--var"@, c.variable@];
    assert(read_only_argv(c6));
    lemma_concat_read_only(c6, pol);
    let e8 = seq![
        "clean"@,
        "--export"@,
        "--shell"@,
        c.shell@,
        "--platform"@,
        c.platform@,
        "--var"@,
        c.variable@,
    ];
    assert(read_only_argv(e8));
    lemma_concat_read_only(e8, pol);
    let a6 = seq!["apply"@, "--dry-run"@, "--shell"@, c.shell@, "--platform"@, c.platform@];
    assert(read_only_argv(a6));
    let prof = match opt_view(c.profile) {
        Some(p) => seq!["--profile"@, p],
        None => Seq::<Seq<char>>::empty(),
    };
    assert(read_only_argv(prof));
    lemma_concat_read_only(a6, prof);
    lemma_concat_read_only(a6 + prof, pol);
    lemma_concat_read_only(a6 + prof + pol, jf);
    assert(read_only_argv(seq!["completions"@, c.shell@]));
}

} // verus!

use vstd::prelude::*;

use crate::dynamic_linker::first_component;
use crate::text::{append_text, chars_of, contains_seq, has_text, starts, string_of_chars, texts};

verus! {

/// `s` without all the leading copies of `p` (as `str::trim_start_matches`).
pub open spec fn trim_start_all(s: Seq<char>, p: Seq<char>) -> Seq<char>
    decreases s.len(),
{
    if p.len() > 0 && starts(s, p) {
        trim_start_all(s.skip(p.len() as int), p)
    } else {
        s
    }
}

/// `s` ends with `p`.
pub open spec fn ends(s: Seq<char>, p: Seq<char>) -> bool {
    p.len() <= s.len() && s.skip(s.len() - p.len()) == p
}

/// `s` without all the trailing copies of `p` (as `str::trim_end_matches`).
pub open spec fn trim_end_all(s: Seq<char>, p: Seq<char>) -> Seq<char>
    decreases s.len(),
{
    if p.len() > 0 && ends(s, p) {
        trim_end_all(s.take(s.len() - p.len()), p)
    } else {
        s
    }
}

/// The architecture of an Apple target, read from the text of its triple (which may be
/// written `TargetTriple("...")`).
pub open spec fn apple_arch(triple: Seq<char>) -> Seq<char> {
    first_component(trim_end_all(trim_start_all(triple, "TargetTriple(\""@), "\")"@))
}

/// The target is an Apple one.
pub open spec fn is_apple(triple: Seq<char>) -> bool {
    contains_seq(triple, "apple"@)
}

/// The commands to try, in order, to link the object file `obj` into the executable
/// `exe`: the LLVM linker first (`ld64.lld` for Apple targets, with the macOS version
/// `version`; `ld.lld` with the dynamic linker `dl` otherwise), then `clang`, then `gcc`.
/// Each command is its program and its arguments.
pub open spec fn link_attempts(
    triple: Seq<char>,
    version: Seq<char>,
    obj: Seq<char>,
    exe: Seq<char>,
    dl: Seq<char>,
) -> Seq<(Seq<char>, Seq<Seq<char>>)> {
    let first = if is_apple(triple) {
        (
            "ld64.lld"@,
            seq![
                "-demangle"@,
                "-dynamic"@,
                "-arch"@,
                apple_arch(triple),
                "-platform_version"@,
                "macos"@,
                version,
                version,
                "-syslibroot"@,
                "/Library/Developer/CommandLineTools/SDKs/MacOSX.sdk"@,
                "-o"@,
                exe,
                "-L/usr/local/lib"@,
                obj,
                "-lSystem"@,
            ],
        )
    } else {
        (
            "ld.lld"@,
            seq!["-o"@, exe, obj, "/usr/lib/crt1.o"@, "-lc"@, "-L/usr/lib"@, "-dynamic-linker"@, dl],
        )
    };
    seq![first, ("clang"@, seq![obj, "-o"@, exe]), ("gcc"@, seq![obj, "-o"@, exe])]
}

/// A program to run and its arguments.
pub struct LinkCommand {
    pub program: String,
    pub args: Vec<String>,
}

/// The program and the arguments of a command, as texts.
pub open spec fn command_texts(c: LinkCommand) -> (Seq<char>, Seq<Seq<char>>) {
    (c.program@, texts(c.args@))
}

/// Whether the target triple (as text) is an Apple one.
pub fn targets_apple(triple: &str) -> (b: bool)
    ensures
        b == is_apple(triple@),
{
    let t = chars_of(triple);
    has_text(t.as_slice(), "apple")
}

/// `s` without all the leading copies of the text `p`.
fn trim_start_chars(s: &[char], p: &str) -> (v: Vec<char>)
    ensures
        v@ == trim_start_all(s@, p@),
{
    let pc = chars_of(p);
    let n = s.len();
    let mut start: usize = 0;
    assert(s@.skip(0) =~= s@);
    while pc.len() > 0 && crate::text::occurs_at_exec(s, pc.as_slice(), start)
        invariant
            n == s@.len(),
            start <= s@.len(),
            pc@ == p@,
            trim_start_all(s@.skip(start as int), p@) == trim_start_all(s@, p@),
        decreases s@.len() - start,
    {
        proof {
            assert(starts(s@.skip(start as int), p@)) by {
                assert(s@.skip(start as int).subrange(0, p@.len() as int) =~= s@.subrange(start as int, start + p@.len()));
            }
            assert(s@.skip(start as int).skip(p@.len() as int) =~= s@.skip(start + p@.len()));
        }
        start = start + pc.len();
    }
    proof {
        assert(p@.len() == 0 || !starts(s@.skip(start as int), p@)) by {
            if p@.len() > 0 && starts(s@.skip(start as int), p@) {
                assert(s@.skip(start as int).subrange(0, p@.len() as int) =~= s@.subrange(start as int, start + p@.len()));
            }
        }
    }
    let mut v: Vec<char> = Vec::new();
    let mut i: usize = start;
    while i < s.len()
        invariant
            start <= i <= s@.len(),
            v@ == s@.subrange(start as int, i as int),
        decreases s@.len() - i,
    {
        v.push(s[i]);
        assert(s@.subrange(start as int, i + 1) =~= s@.subrange(start as int, i as int).push(s@[i as int]));
        i = i + 1;
    }
    assert(s@.subrange(start as int, s@.len() as int) =~= s@.skip(start as int));
    v
}

/// `s` without all the trailing copies of the text `p`.
fn trim_end_chars(s: &[char], p: &str) -> (v: Vec<char>)
    ensures
        v@ == trim_end_all(s@, p@),
{
    let pc = chars_of(p);
    let mut end: usize = s.len();
    assert(s@.take(end as int) =~= s@);
    while pc.len() > 0 && end >= pc.len() && crate::text::occurs_at_exec(s, pc.as_slice(), end - pc.len())
        invariant
            end <= s@.len(),
            pc@ == p@,
            trim_end_all(s@.take(end as int), p@) == trim_end_all(s@, p@),
        decreases end,
    {
        proof {
            let t = s@.take(end as int);
            assert(ends(t, p@)) by {
                assert(t.skip(t.len() - p@.len()) =~= s@.subrange(end - p@.len(), end as int));
            }
            assert(t.take(t.len() - p@.len()) =~= s@.take(end - p@.len()));
        }
        end = end - pc.len();
    }
    proof {
        let t = s@.take(end as int);
        assert(p@.len() == 0 || !ends(t, p@)) by {
            if p@.len() > 0 && ends(t, p@) {
                assert(t.skip(t.len() - p@.len()) =~= s@.subrange(end - p@.len(), end as int));
            }
        }
    }
    let mut v: Vec<char> = Vec::new();
    let mut i: usize = 0;
    while i < end
        invariant
            i <= end <= s@.len(),
            v@ == s@.take(i as int),
        decreases end - i,
    {
        v.push(s[i]);
        assert(s@.take(i + 1) =~= s@.take(i as int).push(s@[i as int]));
        i = i + 1;
    }
    v
}

/// A text built from a literal.
fn text_of(s: &str) -> (r: String)
    ensures
        r@ == s@,
{
    string_of_chars(chars_of(s).as_slice())
}

/// The commands to try, in order, to link `obj_path` into `exe_path` for the target
/// triple `triple` (see `link_attempts`).
pub fn link_commands(triple: &str, macos_version: &str, obj_path: &str, exe_path: &str, dynamic_linker: &str) -> (v: Vec<LinkCommand>)
    ensures
        v@.map_values(|c: LinkCommand| command_texts(c)) == link_attempts(triple@, macos_version@, obj_path@, exe_path@, dynamic_linker@),
{
    let first = if targets_apple(triple) {
        let t = chars_of(triple);
        let trimmed = trim_start_chars(t.as_slice(), "TargetTriple(\"");
        let trimmed = trim_end_chars(trimmed.as_slice(), "\")");
        let arch = crate::dynamic_linker::first_component_chars(trimmed.as_slice());
        let mut args: Vec<String> = Vec::new();
        args.push(text_of("-demangle"));
        args.push(text_of("-dynamic"));
        args.push(text_of("-arch"));
        args.push(string_of_chars(arch.as_slice()));
        args.push(text_of("-platform_version"));
        args.push(text_of("macos"));
        args.push(text_of(macos_version));
        args.push(text_of(macos_version));
        args.push(text_of("-syslibroot"));
        args.push(text_of("/Library/Developer/CommandLineTools/SDKs/MacOSX.sdk"));
        args.push(text_of("-o"));
        args.push(text_of(exe_path));
        args.push(text_of("-L/usr/local/lib"));
        args.push(text_of(obj_path));
        args.push(text_of("-lSystem"));
        LinkCommand { program: text_of("ld64.lld"), args }
    } else {
        let mut args: Vec<String> = Vec::new();
        args.push(text_of("-o"));
        args.push(text_of(exe_path));
        args.push(text_of(obj_path));
        args.push(text_of("/usr/lib/crt1.o"));
        args.push(text_of("-lc"));
        args.push(text_of("-L/usr/lib"));
        args.push(text_of("-dynamic-linker"));
        args.push(text_of(dynamic_linker));
        LinkCommand { program: text_of("ld.lld"), args }
    };
    let mut clang_args: Vec<String> = Vec::new();
    clang_args.push(text_of(obj_path));
    clang_args.push(text_of("-o"));
    clang_args.push(text_of(exe_path));
    let mut gcc_args: Vec<String> = Vec::new();
    gcc_args.push(text_of(obj_path));
    gcc_args.push(text_of("-o"));
    gcc_args.push(text_of(exe_path));
    let mut v: Vec<LinkCommand> = Vec::new();
    v.push(first);
    v.push(LinkCommand { program: text_of("clang"), args: clang_args });
    v.push(LinkCommand { program: text_of("gcc"), args: gcc_args });
    proof {
        let want = link_attempts(triple@, macos_version@, obj_path@, exe_path@, dynamic_linker@);
        assert(command_texts(v@[0]) == want[0]);
        assert(command_texts(v@[1]) == want[1]);
        assert(command_texts(v@[2]) == want[2]);
        assert(v@.map_values(|c: LinkCommand| command_texts(c)) =~= want);
    }
    v
}

/// The macOS version to link for: the one reported, or 15.0 when it could not be read.
pub fn macos_version_or_default(reported: Option<&str>) -> (v: String)
    ensures
        v@ == (match reported {
            Some(r) => r@,
            None => "15.0"@,
        }),
{
    match reported {
        Some(r) => text_of(r),
        None => text_of("15.0"),
    }
}

/// The error given when every link command failed, `last_error` being what the last
/// one (`gcc`) reported.
pub open spec fn failure_text(last_error: Seq<char>) -> Seq<char> {
    "All linking attempts failed. Last error (gcc): "@ + last_error + ". Tried: ld.lld/ld64.lld, clang, and gcc"@
}

/// The error given when every link command failed (see `failure_text`).
pub fn link_failure_message(last_error: &str) -> (m: String)
    ensures
        m@ == failure_text(last_error@),
{
    let v = append_text(append_text(chars_of("All linking attempts failed. Last error (gcc): "), last_error), ". Tried: ld.lld/ld64.lld, clang, and gcc");
    string_of_chars(v.as_slice())
}

/// What comes after an attempt to link.
pub enum LinkStep {
    /// The program is linked.
    Linked,
    /// Try the command at this position.
    Next(usize),
    /// Every command failed; the error to report.
    Failed(String),
}

/// What comes after attempt number `attempt` of `attempts` ended with `outcome`: done on
/// success, else the next command, else (after the last one) the failure, which
/// reports the last error.
pub fn after_link_attempt(attempt: usize, attempts: usize, outcome: &Result<(), String>) -> (s: LinkStep)
    requires
        attempt < attempts,
    ensures
        match outcome {
            Ok(_) => s is Linked,
            Err(e) => if attempt + 1 < attempts {
                s == LinkStep::Next((attempt + 1) as usize)
            } else {
                s matches LinkStep::Failed(m) && m@ == failure_text(e@)
            },
        },
{
    match outcome {
        Ok(_) => LinkStep::Linked,
        Err(e) => {
            if attempt + 1 < attempts {
                LinkStep::Next(attempt + 1)
            } else {
                LinkStep::Failed(link_failure_message(e.as_str()))
            }
        },
    }
}

} // verus!

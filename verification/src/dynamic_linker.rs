use vstd::prelude::*;

use crate::generator::first_index;
use crate::text::{append_chars, append_text, chars_of, contains_seq, has_text, occurs_at, starts, starts_with_text, string_of_chars};

verus! {

/// The triple names architecture `arch`: it begins with it or holds it.
pub open spec fn is_arch(t: Seq<char>, arch: Seq<char>) -> bool {
    starts(t, arch) || contains_seq(t, arch)
}

/// The dynamic linker of an Android target.
pub open spec fn android_linker(t: Seq<char>) -> Seq<char> {
    if contains_seq(t, "aarch64"@) || contains_seq(t, "x86_64"@) || contains_seq(t, "mips64"@) {
        "/system/bin/linker64"@
    } else {
        "/system/bin/linker"@
    }
}

/// The first component of the triple: what comes before its first `-`.
pub open spec fn first_component(t: Seq<char>) -> Seq<char> {
    match first_index(t, '-') {
        Some(i) => t.take(i),
        None => t,
    }
}

/// The architecture name in the dynamic linker of a musl target.
pub open spec fn musl_arch(t: Seq<char>) -> Seq<char> {
    if is_arch(t, "arm"@) || is_arch(t, "thumb"@) {
        (if contains_seq(t, "eb"@) {
            "armeb"@
        } else {
            "arm"@
        }) + (if contains_seq(t, "hf"@) || contains_seq(t, "eabihf"@) {
            "hf"@
        } else {
            Seq::empty()
        })
    } else if is_arch(t, "aarch64"@) {
        if contains_seq(t, "_be"@) {
            "aarch64_be"@
        } else {
            "aarch64"@
        }
    } else if is_arch(t, "mips"@) || is_arch(t, "mipsel"@) || is_arch(t, "mips64"@) || is_arch(t, "mips64el"@) {
        if starts(t, "mips64el"@) {
            "mips64el"@
        } else if starts(t, "mips64"@) {
            "mips64"@
        } else if starts(t, "mipsel"@) {
            "mipsel"@
        } else {
            "mips"@
        }
    } else {
        first_component(t)
    }
}

/// The loader of a MIPS target: uClibc or glibc, with or without the 2008 NaN encoding.
pub open spec fn mips_loader(t: Seq<char>) -> Seq<char> {
    let nan2008 = contains_seq(t, "nan2008"@);
    if contains_seq(t, "uclibc"@) {
        if nan2008 {
            "ld-uClibc-mipsn8.so.0"@
        } else {
            "ld-uClibc.so.0"@
        }
    } else {
        if nan2008 {
            "ld-linux-mipsn8.so.1"@
        } else {
            "ld.so.1"@
        }
    }
}

/// The ABI of a 64-bit RISC-V target.
pub open spec fn riscv64_abi(t: Seq<char>) -> Seq<char> {
    if contains_seq(t, "lp64d"@) {
        "lp64d"@
    } else if contains_seq(t, "lp64f"@) {
        "lp64f"@
    } else {
        "lp64"@
    }
}

/// The ABI of a 32-bit RISC-V target.
pub open spec fn riscv32_abi(t: Seq<char>) -> Seq<char> {
    if contains_seq(t, "ilp32d"@) {
        "ilp32d"@
    } else if contains_seq(t, "ilp32f"@) {
        "ilp32f"@
    } else {
        "ilp32"@
    }
}

/// The library directory and the loader of a glibc (or uClibc) Linux target, by
/// architecture, the first that the triple names winning (PowerPC under both its short
/// and its LLVM spellings).
pub open spec fn linux_paths(t: Seq<char>) -> (Seq<char>, Seq<char>) {
    if is_arch(t, "aarch64"@) {
        ("lib"@, if contains_seq(t, "_be"@) { "ld-linux-aarch64_be.so.1"@ } else { "ld-linux-aarch64.so.1"@ })
    } else if is_arch(t, "arm"@) || is_arch(t, "thumb"@) {
        ("lib"@, if contains_seq(t, "hf"@) || contains_seq(t, "eabihf"@) { "ld-linux-armhf.so.3"@ } else { "ld-linux.so.3"@ })
    } else if is_arch(t, "mips64el"@) || is_arch(t, "mips64"@) {
        ("lib"@ + (if contains_seq(t, "n32"@) { "32"@ } else { "64"@ }), mips_loader(t))
    } else if is_arch(t, "mipsel"@) || is_arch(t, "mips"@) {
        ("lib"@, mips_loader(t))
    } else if is_arch(t, "ppc64le"@) || is_arch(t, "powerpc64le"@) {
        ("lib64"@, if contains_seq(t, "elfv1"@) { "ld64.so.1"@ } else { "ld64.so.2"@ })
    } else if is_arch(t, "ppc64"@) || is_arch(t, "powerpc64"@) {
        ("lib64"@, if contains_seq(t, "elfv2"@) { "ld64.so.2"@ } else { "ld64.so.1"@ })
    } else if is_arch(t, "ppc"@) || is_arch(t, "powerpc"@) {
        ("lib"@, "ld.so.1"@)
    } else if is_arch(t, "riscv64"@) {
        ("lib"@, "ld-linux-riscv64-"@ + riscv64_abi(t) + ".so.1"@)
    } else if is_arch(t, "riscv32"@) {
        ("lib"@, "ld-linux-riscv32-"@ + riscv32_abi(t) + ".so.1"@)
    } else if is_arch(t, "sparc64"@) || is_arch(t, "sparcv9"@) {
        ("lib64"@, "ld-linux.so.2"@)
    } else if is_arch(t, "sparc"@) {
        ("lib"@, "ld-linux.so.2"@)
    } else if is_arch(t, "s390x"@) || is_arch(t, "systemz"@) {
        ("lib"@, "ld64.so.1"@)
    } else if is_arch(t, "x86_64"@) {
        if contains_seq(t, "x32"@) || contains_seq(t, "gnux32"@) {
            ("libx32"@, "ld-linux-x32.so.2"@)
        } else {
            ("lib64"@, "ld-linux-x86-64.so.2"@)
        }
    } else {
        ("lib"@, "ld-linux.so.2"@)
    }
}

/// The path of the dynamic linker of the target `t` (a target triple), as Clang's
/// Linux toolchain chooses it: Android's linkers, musl's `/lib/ld-musl-ARCH.so.1`,
/// else the glibc loader in its library directory (under `/usr/TRIPLE/lib` on Exherbo).
pub open spec fn dynamic_linker(t: Seq<char>) -> Seq<char> {
    if contains_seq(t, "android"@) {
        android_linker(t)
    } else if contains_seq(t, "musl"@) {
        "/lib/ld-musl-"@ + musl_arch(t) + ".so.1"@
    } else {
        let (dir, loader) = linux_paths(t);
        if contains_seq(t, "exherbo"@) && (!contains_seq(t, "-"@) || contains_seq(t, "-pc-"@)) {
            "/usr/"@ + t + "/lib/"@ + loader
        } else {
            "/"@ + dir + "/"@ + loader
        }
    }
}

/// Whether the triple names architecture `arch`.
fn is_arch_exec(t: &[char], arch: &str) -> (b: bool)
    ensures
        b == is_arch(t@, arch@),
{
    starts_with_text(t, arch) || has_text(t, arch)
}

fn android_linker_chars(t: &[char]) -> (v: Vec<char>)
    ensures
        v@ == android_linker(t@),
{
    if has_text(t, "aarch64") || has_text(t, "x86_64") || has_text(t, "mips64") {
        chars_of("/system/bin/linker64")
    } else {
        chars_of("/system/bin/linker")
    }
}

pub(crate) fn first_component_chars(t: &[char]) -> (v: Vec<char>)
    ensures
        v@ == first_component(t@),
{
    let mut v: Vec<char> = Vec::new();
    let mut i: usize = 0;
    while i < t.len()
        invariant
            i <= t@.len(),
            first_index(t@.take(i as int), '-') is None,
            v@ == t@.take(i as int),
        decreases t@.len() - i,
    {
        proof {
            assert(t@.take(i + 1).drop_last() =~= t@.take(i as int));
        }
        if t[i] == '-' {
            proof {
                assert(first_index(t@.take(i + 1), '-') == Some(i as int));
                crate::generator::lemma_first_index_extend(t@, '-', i + 1);
            }
            return v;
        }
        v.push(t[i]);
        i = i + 1;
    }
    assert(t@.take(i as int) =~= t@);
    v
}

fn musl_arch_chars(t: &[char]) -> (v: Vec<char>)
    ensures
        v@ == musl_arch(t@),
{
    if is_arch_exec(t, "arm") || is_arch_exec(t, "thumb") {
        let base = if has_text(t, "eb") {
            chars_of("armeb")
        } else {
            chars_of("arm")
        };
        if has_text(t, "hf") || has_text(t, "eabihf") {
            append_text(base, "hf")
        } else {
            assert(base@ + Seq::<char>::empty() =~= base@);
            base
        }
    } else if is_arch_exec(t, "aarch64") {
        if has_text(t, "_be") {
            chars_of("aarch64_be")
        } else {
            chars_of("aarch64")
        }
    } else if is_arch_exec(t, "mips") || is_arch_exec(t, "mipsel") || is_arch_exec(t, "mips64") || is_arch_exec(t, "mips64el") {
        if starts_with_text(t, "mips64el") {
            chars_of("mips64el")
        } else if starts_with_text(t, "mips64") {
            chars_of("mips64")
        } else if starts_with_text(t, "mipsel") {
            chars_of("mipsel")
        } else {
            chars_of("mips")
        }
    } else {
        first_component_chars(t)
    }
}

fn mips_loader_chars(t: &[char]) -> (v: Vec<char>)
    ensures
        v@ == mips_loader(t@),
{
    let nan2008 = has_text(t, "nan2008");
    if has_text(t, "uclibc") {
        if nan2008 {
            chars_of("ld-uClibc-mipsn8.so.0")
        } else {
            chars_of("ld-uClibc.so.0")
        }
    } else {
        if nan2008 {
            chars_of("ld-linux-mipsn8.so.1")
        } else {
            chars_of("ld.so.1")
        }
    }
}

fn linux_paths_chars(t: &[char]) -> (r: (Vec<char>, Vec<char>))
    ensures
        (r.0@, r.1@) == linux_paths(t@),
{
    if is_arch_exec(t, "aarch64") {
        (chars_of("lib"), if has_text(t, "_be") { chars_of("ld-linux-aarch64_be.so.1") } else { chars_of("ld-linux-aarch64.so.1") })
    } else if is_arch_exec(t, "arm") || is_arch_exec(t, "thumb") {
        (chars_of("lib"), if has_text(t, "hf") || has_text(t, "eabihf") { chars_of("ld-linux-armhf.so.3") } else { chars_of("ld-linux.so.3") })
    } else if is_arch_exec(t, "mips64el") || is_arch_exec(t, "mips64") {
        let suffix = if has_text(t, "n32") { "32" } else { "64" };
        (append_text(chars_of("lib"), suffix), mips_loader_chars(t))
    } else if is_arch_exec(t, "mipsel") || is_arch_exec(t, "mips") {
        (chars_of("lib"), mips_loader_chars(t))
    } else if is_arch_exec(t, "ppc64le") || is_arch_exec(t, "powerpc64le") {
        (chars_of("lib64"), if has_text(t, "elfv1") { chars_of("ld64.so.1") } else { chars_of("ld64.so.2") })
    } else if is_arch_exec(t, "ppc64") || is_arch_exec(t, "powerpc64") {
        (chars_of("lib64"), if has_text(t, "elfv2") { chars_of("ld64.so.2") } else { chars_of("ld64.so.1") })
    } else if is_arch_exec(t, "ppc") || is_arch_exec(t, "powerpc") {
        (chars_of("lib"), chars_of("ld.so.1"))
    } else if is_arch_exec(t, "riscv64") {
        let abi = if has_text(t, "lp64d") {
            "lp64d"
        } else if has_text(t, "lp64f") {
            "lp64f"
        } else {
            "lp64"
        };
        (chars_of("lib"), append_text(append_text(chars_of("ld-linux-riscv64-"), abi), ".so.1"))
    } else if is_arch_exec(t, "riscv32") {
        let abi = if has_text(t, "ilp32d") {
            "ilp32d"
        } else if has_text(t, "ilp32f") {
            "ilp32f"
        } else {
            "ilp32"
        };
        (chars_of("lib"), append_text(append_text(chars_of("ld-linux-riscv32-"), abi), ".so.1"))
    } else if is_arch_exec(t, "sparc64") || is_arch_exec(t, "sparcv9") {
        (chars_of("lib64"), chars_of("ld-linux.so.2"))
    } else if is_arch_exec(t, "sparc") {
        (chars_of("lib"), chars_of("ld-linux.so.2"))
    } else if is_arch_exec(t, "s390x") || is_arch_exec(t, "systemz") {
        (chars_of("lib"), chars_of("ld64.so.1"))
    } else if is_arch_exec(t, "x86_64") {
        if has_text(t, "x32") || has_text(t, "gnux32") {
            (chars_of("libx32"), chars_of("ld-linux-x32.so.2"))
        } else {
            (chars_of("lib64"), chars_of("ld-linux-x86-64.so.2"))
        }
    } else {
        (chars_of("lib"), chars_of("ld-linux.so.2"))
    }
}

/// The path of the dynamic linker for the target triple `triple` (see `dynamic_linker`).
pub fn get_dynamic_linker(triple: &str) -> (path: String)
    ensures
        path@ == dynamic_linker(triple@),
{
    let t = chars_of(triple);
    let ts = t.as_slice();
    let v = if has_text(ts, "android") {
        android_linker_chars(ts)
    } else if has_text(ts, "musl") {
        append_text(append_chars(chars_of("/lib/ld-musl-"), musl_arch_chars(ts)), ".so.1")
    } else {
        let (dir, loader) = linux_paths_chars(ts);
        if has_text(ts, "exherbo") && (!has_text(ts, "-") || has_text(ts, "-pc-")) {
            append_chars(append_text(append_chars(chars_of("/usr/"), chars_of(triple)), "/lib/"), loader)
        } else {
            append_chars(append_text(append_chars(chars_of("/"), dir), "/"), loader)
        }
    };
    string_of_chars(v.as_slice())
}

/// A triple that holds `eabihf` holds `hf`.
proof fn lemma_eabihf_has_hf(t: Seq<char>)
    requires
        contains_seq(t, "eabihf"@),
    ensures
        contains_seq(t, "hf"@),
{
    reveal_strlit("eabihf");
    reveal_strlit("hf");
    let i = choose|i: int| #[trigger] occurs_at(t, "eabihf"@, i);
    assert(t.subrange(i + 4, i + 6) =~= "hf"@) by {
        assert(t.subrange(i, i + 6)[4] == t[i + 4]);
        assert(t.subrange(i, i + 6)[5] == t[i + 5]);
    }
    assert(occurs_at(t, "hf"@, i + 4));
}

/// For a musl ARM target (other than Android) the dynamic linker's name ends in
/// `hf.so.1` (the hard-float loader) exactly when the triple holds `hf`: a soft-float
/// triple such as `arm-unknown-linux-musleabi` gets the plain ARM loader.
pub proof fn lemma_musl_arm_hard_float(t: Seq<char>)
    requires
        !contains_seq(t, "android"@),
        contains_seq(t, "musl"@),
        is_arch(t, "arm"@) || is_arch(t, "thumb"@),
    ensures
        ({
            let d = dynamic_linker(t);
            (d.len() >= 7 && d.skip(d.len() - 7) == "hf.so.1"@) <==> contains_seq(t, "hf"@)
        }),
{
    reveal_strlit("hf.so.1");
    reveal_strlit(".so.1");
    reveal_strlit("hf");
    reveal_strlit("arm");
    reveal_strlit("armeb");
    reveal_strlit("/lib/ld-musl-");
    if contains_seq(t, "eabihf"@) {
        lemma_eabihf_has_hf(t);
    }
    let d = dynamic_linker(t);
    let base: Seq<char> = if contains_seq(t, "eb"@) { "armeb"@ } else { "arm"@ };
    if contains_seq(t, "hf"@) {
        assert(d == "/lib/ld-musl-"@ + (base + "hf"@) + ".so.1"@);
        assert(d.skip(d.len() - 7) =~= "hf.so.1"@);
    } else {
        assert(d == "/lib/ld-musl-"@ + (base + Seq::<char>::empty()) + ".so.1"@);
        assert(d.skip(d.len() - 7)[0] == d[d.len() - 7]);
        assert(d[d.len() - 7] != 'h');
    }
}

} // verus!

use kompilattheur::linking::{after_link_attempt, link_commands, link_failure_message, macos_version_or_default, targets_apple, LinkStep};

fn strings(v: &[&str]) -> Vec<String> {
    v.iter().map(|s| String::from(*s)).collect()
}

#[test]
fn linux_link_commands() {
    let cmds = link_commands("x86_64-unknown-linux-gnu", "15.0", "/tmp/a.o", "a.out", "/lib64/ld-linux-x86-64.so.2");
    assert_eq!(3, cmds.len());
    assert_eq!("ld.lld", cmds[0].program);
    assert_eq!(
        strings(&["-o", "a.out", "/tmp/a.o", "/usr/lib/crt1.o", "-lc", "-L/usr/lib", "-dynamic-linker", "/lib64/ld-linux-x86-64.so.2"]),
        cmds[0].args
    );
    assert_eq!("clang", cmds[1].program);
    assert_eq!(strings(&["/tmp/a.o", "-o", "a.out"]), cmds[1].args);
    assert_eq!("gcc", cmds[2].program);
    assert_eq!(strings(&["/tmp/a.o", "-o", "a.out"]), cmds[2].args);
}

#[test]
fn apple_link_commands() {
    let triple = "TargetTriple(\"arm64-apple-macosx14.0.0\")";
    assert!(targets_apple(triple));
    let cmds = link_commands(triple, "14.2", "o.o", "exe", "");
    assert_eq!("ld64.lld", cmds[0].program);
    assert_eq!(
        strings(&[
            "-demangle", "-dynamic", "-arch", "arm64", "-platform_version", "macos", "14.2", "14.2", "-syslibroot",
            "/Library/Developer/CommandLineTools/SDKs/MacOSX.sdk", "-o", "exe", "-L/usr/local/lib", "o.o", "-lSystem",
        ]),
        cmds[0].args
    );
    let plain = link_commands("x86_64-apple-darwin", "14.2", "o.o", "exe", "");
    assert_eq!("x86_64", plain[0].args[3]);
}

#[test]
fn non_apple_targets() {
    assert!(!targets_apple("x86_64-unknown-linux-gnu"));
}

#[test]
fn default_macos_version() {
    assert_eq!("15.0", macos_version_or_default(None));
    assert_eq!("13.1", macos_version_or_default(Some("13.1")));
}

#[test]
fn failure_message() {
    assert_eq!(
        "All linking attempts failed. Last error (gcc): boom. Tried: ld.lld/ld64.lld, clang, and gcc",
        link_failure_message("boom")
    );
}

#[test]
fn steps_after_link_attempts() {
    assert!(matches!(after_link_attempt(0, 3, &Ok(())), LinkStep::Linked));
    assert!(matches!(after_link_attempt(0, 3, &Err(String::from("x"))), LinkStep::Next(1)));
    assert!(matches!(after_link_attempt(1, 3, &Err(String::from("x"))), LinkStep::Next(2)));
    match after_link_attempt(2, 3, &Err(String::from("no gcc"))) {
        LinkStep::Failed(m) => assert_eq!(link_failure_message("no gcc"), m),
        _ => panic!("the last failed attempt must end the linking"),
    }
}

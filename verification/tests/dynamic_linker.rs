use kompilattheur::dynamic_linker::get_dynamic_linker;

#[test]
fn linux_gnu_targets() {
    assert_eq!("/lib64/ld-linux-x86-64.so.2", get_dynamic_linker("x86_64-unknown-linux-gnu"));
    assert_eq!("/lib/ld-linux-aarch64.so.1", get_dynamic_linker("aarch64-unknown-linux-gnu"));
    assert_eq!("/lib/ld-linux-aarch64_be.so.1", get_dynamic_linker("aarch64_be-unknown-linux-gnu"));
    assert_eq!("/lib/ld-linux-armhf.so.3", get_dynamic_linker("armv7-unknown-linux-gnueabihf"));
    assert_eq!("/lib/ld-linux.so.3", get_dynamic_linker("arm-unknown-linux-gnueabi"));
    assert_eq!("/lib/ld-linux.so.2", get_dynamic_linker("i686-pc-linux-gnu"));
    assert_eq!("/libx32/ld-linux-x32.so.2", get_dynamic_linker("x86_64-pc-linux-gnux32"));
    assert_eq!("/lib/ld-linux-riscv64-lp64d.so.1", get_dynamic_linker("riscv64-unknown-linux-gnu-lp64d"));
    assert_eq!("/lib/ld-linux-riscv64-lp64.so.1", get_dynamic_linker("riscv64gc-unknown-linux-gnu"));
    assert_eq!("/lib/ld-linux-riscv32-ilp32.so.1", get_dynamic_linker("riscv32-unknown-linux-gnu"));
    assert_eq!("/lib64/ld64.so.2", get_dynamic_linker("ppc64le-unknown-linux-gnu"));
    assert_eq!("/lib64/ld64.so.1", get_dynamic_linker("ppc64-unknown-linux-gnu"));
    assert_eq!("/lib/ld.so.1", get_dynamic_linker("ppc-unknown-linux-gnu"));
    assert_eq!("/lib64/ld64.so.2", get_dynamic_linker("powerpc64le-unknown-linux-gnu"));
    assert_eq!("/lib64/ld64.so.1", get_dynamic_linker("powerpc64-unknown-linux-gnu"));
    assert_eq!("/lib64/ld64.so.2", get_dynamic_linker("powerpc64-unknown-linux-gnu-elfv2"));
    assert_eq!("/lib/ld.so.1", get_dynamic_linker("powerpc-unknown-linux-gnu"));
    assert_eq!("/lib64/ld-linux.so.2", get_dynamic_linker("sparc64-unknown-linux-gnu"));
    assert_eq!("/lib/ld64.so.1", get_dynamic_linker("s390x-unknown-linux-gnu"));
}

#[test]
fn mips_targets() {
    assert_eq!("/lib64/ld.so.1", get_dynamic_linker("mips64el-unknown-linux-gnuabi64"));
    assert_eq!("/lib32/ld.so.1", get_dynamic_linker("mips64-unknown-linux-gnuabin32"));
    assert_eq!("/lib/ld-linux-mipsn8.so.1", get_dynamic_linker("mipsel-unknown-linux-gnu-nan2008"));
    assert_eq!("/lib/ld-uClibc.so.0", get_dynamic_linker("mips-unknown-linux-uclibc"));
}

#[test]
fn android_targets() {
    assert_eq!("/system/bin/linker64", get_dynamic_linker("aarch64-linux-android"));
    assert_eq!("/system/bin/linker64", get_dynamic_linker("x86_64-linux-android"));
    assert_eq!("/system/bin/linker", get_dynamic_linker("armv7-linux-androideabi"));
}

#[test]
fn musl_targets() {
    assert_eq!("/lib/ld-musl-x86_64.so.1", get_dynamic_linker("x86_64-unknown-linux-musl"));
    assert_eq!("/lib/ld-musl-armhf.so.1", get_dynamic_linker("armv7-unknown-linux-musleabihf"));
    assert_eq!("/lib/ld-musl-aarch64.so.1", get_dynamic_linker("aarch64-unknown-linux-musl"));
    assert_eq!("/lib/ld-musl-mips64el.so.1", get_dynamic_linker("mips64el-unknown-linux-musl"));
    assert_eq!("/lib/ld-musl-s390x.so.1", get_dynamic_linker("s390x-unknown-linux-musl"));
}

#[test]
fn unknown_architecture_falls_back() {
    assert_eq!("/lib/ld-linux.so.2", get_dynamic_linker("wasm32-unknown-unknown"));
    assert_eq!("/lib/ld-linux.so.2", get_dynamic_linker(""));
}

#[test]
fn exherbo_targets() {
    assert_eq!("/usr/x86_64-pc-linux-gnu-exherbo/lib/ld-linux-x86-64.so.2", get_dynamic_linker("x86_64-pc-linux-gnu-exherbo"));
    assert_eq!("/lib64/ld-linux-x86-64.so.2", get_dynamic_linker("x86_64-unknown-linux-exherbo"));
}

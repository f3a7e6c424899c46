use trimat::dispatch::{dispatch_info, select_backend, Arch, Backend};

#[test]
fn aarch64_uses_neon() {
    assert_eq!(select_backend(Arch::Aarch64, false), Backend::Neon);
    assert_eq!(select_backend(Arch::Aarch64, true), Backend::Neon);
}

#[test]
fn x86_64_uses_avx2_only_when_detected() {
    assert_eq!(select_backend(Arch::X86_64, true), Backend::Avx2);
    assert_eq!(select_backend(Arch::X86_64, false), Backend::Scalar);
}

#[test]
fn other_architectures_use_scalar() {
    assert_eq!(select_backend(Arch::Other, true), Backend::Scalar);
    assert_eq!(select_backend(Arch::Other, false), Backend::Scalar);
}

#[test]
fn backend_names() {
    assert_eq!(Backend::Neon.name(), "neon");
    assert_eq!(Backend::Avx2.name(), "avx2");
    assert_eq!(Backend::Scalar.name(), "scalar");
}

#[test]
fn dispatch_info_reports_backend_and_pool_size() {
    let info = dispatch_info(Arch::X86_64, true);
    assert_eq!(info.backend, "avx2");
    assert!(info.threads >= 1);
    assert_eq!(info.threads, rayon::current_num_threads());
    let info = dispatch_info(Arch::Other, false);
    assert_eq!(info.backend, "scalar");
}

#[test]
fn dispatch_info_counts_the_threads_of_the_pool_it_runs_in() {
    let pool = rayon::ThreadPoolBuilder::new().num_threads(3).build().unwrap();
    let info = pool.install(|| dispatch_info(Arch::Aarch64, false));
    assert_eq!(info.backend, "neon");
    assert_eq!(info.threads, 3);
}

#[test]
fn dispatch_info_with_threads_reports_the_given_count() {
    let info = trimat::dispatch::dispatch_info_with_threads(Arch::X86_64, false, 7);
    assert_eq!(info.backend, "scalar");
    assert_eq!(info.threads, 7);
}

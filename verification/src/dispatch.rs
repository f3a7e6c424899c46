//! Choice of the kernel backend for the running machine.
use vstd::prelude::*;

verus! {

/// The processor architecture the library runs on.
#[derive(Clone, Copy, Debug, PartialEq, Eq, Structural)]
pub enum Arch {
    Aarch64,
    X86_64,
    Other,
}

/// The kernel family that serves the matrix products.
#[derive(Clone, Copy, Debug, PartialEq, Eq, Structural)]
pub enum Backend {
    Neon,
    Avx2,
    Scalar,
}

/// Runtime information: the active backend's name and the worker thread count.
pub struct DispatchInfo {
    pub backend: &'static str,
    pub threads: usize,
}

/// NEON on aarch64; on x86_64 AVX2 when the processor has it, else the
/// portable scalar kernels; the scalar kernels everywhere else.
pub open spec fn spec_select_backend(arch: Arch, avx2_detected: bool) -> Backend {
    match arch {
        Arch::Aarch64 => Backend::Neon,
        Arch::X86_64 => if avx2_detected {
            Backend::Avx2
        } else {
            Backend::Scalar
        },
        Arch::Other => Backend::Scalar,
    }
}

impl Backend {
    /// The name under which the backend is reported.
    pub open spec fn spec_name(self) -> Seq<char> {
        match self {
            Backend::Neon => "neon"@,
            Backend::Avx2 => "avx2"@,
            Backend::Scalar => "scalar"@,
        }
    }

    /// The name under which the backend is reported: "neon", "avx2" or "scalar".
    pub fn name(&self) -> (s: &'static str)
        ensures
            s@ == self.spec_name(),
    {
        match self {
            Backend::Neon => "neon",
            Backend::Avx2 => "avx2",
            Backend::Scalar => "scalar",
        }
    }
}

/// The best available backend for the architecture and the processor's AVX2
/// support.
pub fn select_backend(arch: Arch, avx2_detected: bool) -> (b: Backend)
    ensures
        b == spec_select_backend(arch, avx2_detected),
{
    match arch {
        Arch::Aarch64 => Backend::Neon,
        Arch::X86_64 => if avx2_detected {
            Backend::Avx2
        } else {
            Backend::Scalar
        },
        Arch::Other => Backend::Scalar,
    }
}

/// Calls `rayon::current_num_threads`: the number of threads of the Rayon pool
/// the caller runs in, or of the global pool outside one. The pool builder
/// never makes a pool of zero threads, so the count is at least 1; which count
/// comes back depends on the environment and is otherwise left open.
#[verifier::external_body]
fn current_num_threads() -> (n: usize)
    ensures
        n >= 1,
{
    rayon::current_num_threads()
}

/// Runtime information for the backend chosen for `arch` and the processor's
/// AVX2 support, reporting `threads` worker threads.
pub fn dispatch_info_with_threads(arch: Arch, avx2_detected: bool, threads: usize) -> (info:
    DispatchInfo)
    ensures
        info.backend@ == spec_select_backend(arch, avx2_detected).spec_name(),
        info.threads == threads,
{
    let backend = select_backend(arch, avx2_detected).name();
    DispatchInfo { backend, threads }
}

/// Runtime information for the backend chosen for `arch` and the processor's
/// AVX2 support, with the size of the current Rayon thread pool. The pool size
/// depends on the environment; whatever it is, it is reported as read and is
/// at least 1.
pub fn dispatch_info(arch: Arch, avx2_detected: bool) -> (info: DispatchInfo)
    ensures
        info.backend@ == spec_select_backend(arch, avx2_detected).spec_name(),
        info.threads >= 1,
{
    let threads = current_num_threads();
    dispatch_info_with_threads(arch, avx2_detected, threads)
}

} // verus!

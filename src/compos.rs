//! Pieces of the host-side VM client that decide rather than talk: the fs-verity formatted digest,
//! the choice between a protected and a non-protected VM, and the numbers a VM config takes from
//! the caller's parameters.
use vstd::prelude::*;

verus! {

/// Size in bytes of a SHA-256 digest.
pub const SHA256_HASH_SIZE: usize = 32;

/// Size of `struct fsverity_formatted_digest` with SHA-256 in bytes.
pub const FORMATTED_SHA256_DIGEST_SIZE: usize = 44;

/// Hash algorithm number of SHA-256 in fs-verity.
pub const FS_VERITY_HASH_ALG_SHA256: u8 = 1;

/// Bytes of SHA256 digest
pub type Sha256Digest = [u8; SHA256_HASH_SIZE];

/// Bytes of `struct fsverity_formatted_digest` in Linux with SHA-256.
pub type FormattedSha256Digest = [u8; FORMATTED_SHA256_DIGEST_SIZE];

/// The ASCII magic `FSVerity`.
pub open spec fn fs_verity_magic() -> Seq<u8> {
    seq![0x46u8, 0x53u8, 0x56u8, 0x65u8, 0x72u8, 0x69u8, 0x74u8, 0x79u8]
}

/// The formatted digest: the magic, the algorithm and the digest size as little-endian 16-bit
/// numbers, then the digest.
pub open spec fn formatted_digest_of(digest: Seq<u8>) -> Seq<u8> {
    fs_verity_magic() + seq![FS_VERITY_HASH_ALG_SHA256, 0u8, 32u8, 0u8] + digest
}

pub fn to_formatted_digest(digest: &Sha256Digest) -> (r: FormattedSha256Digest)
    ensures
        r@ == formatted_digest_of(digest@),
{
    let mut out: FormattedSha256Digest = [0u8; FORMATTED_SHA256_DIGEST_SIZE];
    out.set(0, 0x46);
    out.set(1, 0x53);
    out.set(2, 0x56);
    out.set(3, 0x65);
    out.set(4, 0x72);
    out.set(5, 0x69);
    out.set(6, 0x74);
    out.set(7, 0x79);
    out.set(8, FS_VERITY_HASH_ALG_SHA256);
    out.set(9, 0);
    out.set(10, SHA256_HASH_SIZE as u8);
    out.set(11, 0);
    let ghost head = out@.subrange(0, 12);
    assert(head =~= fs_verity_magic() + seq![FS_VERITY_HASH_ALG_SHA256, 0u8, 32u8, 0u8]);
    let mut i: usize = 0;
    while i < SHA256_HASH_SIZE
        invariant
            0 <= i <= SHA256_HASH_SIZE,
            out@.len() == FORMATTED_SHA256_DIGEST_SIZE,
            out@.subrange(0, 12) == head,
            forall|j: int| 0 <= j < i ==> out@[12 + j] == digest@[j],
        decreases SHA256_HASH_SIZE - i,
    {
        out.set(12 + i, digest[i]);
        assert(out@.subrange(0, 12) =~= head);
        i = i + 1;
    }
    assert(out@ =~= formatted_digest_of(digest@));
    out
}

/// Parameters to be used when creating a virtual machine instance.
#[derive(Default, Debug, Clone)]
pub struct VmParameters {
    /// Whether the VM should be debuggable.
    pub debug_mode: bool,
    /// Number of vCPUs to have in the VM. If None (or zero), defaults to 1.
    pub cpus: Option<u32>,
    /// List of task profiles to apply to the VM
    pub task_profiles: Vec<String>,
    /// If present, overrides the amount of RAM to give the VM
    pub memory_mib: Option<i32>,
    /// Whether the VM prefers staged APEXes or activated ones (false; default)
    pub prefer_staged: bool,
}

impl VmParameters {
    /// The number of vCPUs for the VM config: one unless set to a non-zero count.
    pub fn num_cpus(&self) -> (r: i32)
        ensures
            r != 0,
            self.cpus matches Some(n) ==> r == (if n == 0 {
                1
            } else {
                n as i32
            }),
            self.cpus.is_none() ==> r == 1,
    {
        match self.cpus {
            Some(n) => {
                assert(n != 0 ==> n as i32 != 0) by (bit_vector);
                if n == 0 {
                    1
                } else {
                    n as i32
                }
            },
            None => 1,
        }
    }

    /// The memory size for the VM config, where 0 asks for the default.
    pub fn memory_mib_or_default(&self) -> (r: i32)
        ensures
            r == match self.memory_mib {
                Some(m) => m,
                None => 0,
            },
    {
        match self.memory_mib {
            Some(m) => m,
            None => 0,
        }
    }
}

/// Why no VM can be started.
#[derive(Clone, Copy, Debug, PartialEq, Eq, Structural)]
pub enum VmSupportError {
    /// Only non-protected VMs could run, and this build is not debuggable.
    ProtectedVmNotSupported,
    /// The device supports no VM at all.
    NoVmSupport,
}

/// Chooses between a protected and a non-protected VM from what the device reports: a protected
/// VM whenever one is supported; otherwise a non-protected one, only on a debuggable build.
pub fn want_protected_vm(
    have_protected_vm: bool,
    is_debug_build: bool,
    have_non_protected_vm: bool,
) -> (r: Result<bool, VmSupportError>)
    ensures
        have_protected_vm ==> r == Ok::<bool, VmSupportError>(true),
        !have_protected_vm && !is_debug_build ==> r == Err::<bool, VmSupportError>(
            VmSupportError::ProtectedVmNotSupported,
        ),
        !have_protected_vm && is_debug_build && have_non_protected_vm ==> r == Ok::<
            bool,
            VmSupportError,
        >(false),
        !have_protected_vm && is_debug_build && !have_non_protected_vm ==> r == Err::<
            bool,
            VmSupportError,
        >(VmSupportError::NoVmSupport),
{
    if have_protected_vm {
        return Ok(true);
    }
    if !is_debug_build {
        return Err(VmSupportError::ProtectedVmNotSupported);
    }
    if have_non_protected_vm {
        return Ok(false);
    }
    Err(VmSupportError::NoVmSupport)
}

} // verus!

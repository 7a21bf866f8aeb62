use pvm_boot::compos::{to_formatted_digest, want_protected_vm, VmParameters, VmSupportError};

#[test]
fn formatted_digest_layout() {
    let mut digest = [0u8; 32];
    for (i, b) in digest.iter_mut().enumerate() {
        *b = i as u8 + 0xa0;
    }
    let formatted = to_formatted_digest(&digest);
    assert_eq!(&formatted[0..8], b"FSVerity");
    assert_eq!(&formatted[8..10], &1u16.to_le_bytes());
    assert_eq!(&formatted[10..12], &32u16.to_le_bytes());
    assert_eq!(&formatted[12..], &digest);
}

#[test]
fn protected_vm_choice() {
    assert_eq!(want_protected_vm(true, false, false), Ok(true));
    assert_eq!(want_protected_vm(true, true, true), Ok(true));
    assert_eq!(want_protected_vm(false, true, true), Ok(false));
    assert_eq!(want_protected_vm(false, false, true), Err(VmSupportError::ProtectedVmNotSupported));
    assert_eq!(want_protected_vm(false, true, false), Err(VmSupportError::NoVmSupport));
}

#[test]
fn vm_parameters_defaults() {
    let params = VmParameters::default();
    assert_eq!(params.num_cpus(), 1);
    assert_eq!(params.memory_mib_or_default(), 0);
    let params = VmParameters { cpus: Some(4), memory_mib: Some(2048), ..VmParameters::default() };
    assert_eq!(params.num_cpus(), 4);
    assert_eq!(params.memory_mib_or_default(), 2048);
}

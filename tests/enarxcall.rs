use sallyport::item::enarxcall::{sev, sgx, Payload, USIZE_COUNT};
use std::mem::size_of;

#[test]
fn payload_size() {
    assert_eq!(size_of::<Payload>(), USIZE_COUNT * size_of::<usize>())
}

#[test]
fn tech_assignments() {
    assert_ne!(sev::TECH, sgx::TECH);
}

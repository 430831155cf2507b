//! What the loader hands the shim before the first round trip.
//!
//! The loader writes [`BootInfo`] at the address of the first block and
//! starts the virtual machine. The shim proxies a syscall to the host by
//! triggering a `#VMEXIT` through I/O on [`SYSCALL_TRIGGER_PORT`].
use vstd::prelude::*;

verus! {

/// I/O port used to trigger a `#VMEXIT`
pub const SYSCALL_TRIGGER_PORT: u16 = 0xFF;

/// The maximum size of the injected secret for SEV keeps: 16 KiB.
pub const SEV_SECRET_MAX_SIZE: usize = 16 * 1024;

/// The big-endian 16-bit number in bytes `i` and `i + 1` of `s`.
pub open spec fn be16_at(s: Seq<u8>, i: int) -> u64 {
    ((s[i] as u64) << 8u64) | (s[i + 1] as u64)
}

/// The big-endian 32-bit number in bytes `i` .. `i + 3` of `s`.
pub open spec fn be32_at(s: Seq<u8>, i: int) -> u64 {
    ((s[i] as u64) << 24u64) | ((s[i + 1] as u64) << 16u64) | ((s[i + 2] as u64) << 8u64) | (s[i
        + 3] as u64)
}

/// The big-endian 64-bit number in bytes `i` .. `i + 7` of `s`.
pub open spec fn be64_at(s: Seq<u8>, i: int) -> u64 {
    ((s[i] as u64) << 56u64) | ((s[i + 1] as u64) << 48u64) | ((s[i + 2] as u64) << 40u64) | ((s[i
        + 3] as u64) << 32u64) | ((s[i + 4] as u64) << 24u64) | ((s[i + 5] as u64) << 16u64) | ((s[i
        + 6] as u64) << 8u64) | (s[i + 7] as u64)
}

/// The length of the CBOR byte string that starts `s`, counting its head:
/// `None` where `s` does not start with the head of a byte string of
/// definite length.
pub open spec fn cbor_len_spec(s: Seq<u8>) -> Option<int>
    recommends
        s.len() >= 9,
{
    let prefix = s[0];
    let minor = prefix & 0x1fu8;
    if prefix >> 5u8 != 2 {
        None
    } else if minor <= 23 {
        Some(1 + minor)
    } else if minor == 24 {
        Some(2 + s[1])
    } else if minor == 25 {
        Some(3 + be16_at(s, 1))
    } else if minor == 26 {
        Some(5 + be32_at(s, 1))
    } else if minor == 27 {
        Some(9 + be64_at(s, 1))
    } else {
        None
    }
}

/// The secret injected for SEV keeps: an opaque blob whose valid length
/// is given by the CBOR byte-string head at its start.
#[derive(Copy, Clone, Debug)]
pub struct SevSecret {
    /// the secret byte blob
    pub data: [u8; SEV_SECRET_MAX_SIZE],
}

impl Default for SevSecret {
    fn default() -> (r: SevSecret)
        ensures
            forall|i: int| 0 <= i < SEV_SECRET_MAX_SIZE ==> r.data@[i] == 0,
    {
        SevSecret { data: [0u8; SEV_SECRET_MAX_SIZE] }
    }
}

impl SevSecret {
    /// The length of the CBOR byte string at the start of `data`, head
    /// included, where it fits in 64 bits.
    fn cbor_len(data: &[u8; SEV_SECRET_MAX_SIZE]) -> (r: Option<u64>)
        ensures
            r == match cbor_len_spec(data@) {
                Some(l) => if l <= u64::MAX {
                    Some(l as u64)
                } else {
                    None
                },
                None => None,
            },
    {
        let prefix = data[0];
        let minor = prefix & 0x1fu8;
        if prefix >> 5u8 != 2 {
            None
        } else if minor <= 23 {
            Some(1 + minor as u64)
        } else if minor == 24 {
            Some(2 + data[1] as u64)
        } else if minor == 25 {
            let (a, b) = (data[1], data[2]);
            let n = ((a as u64) << 8u64) | (b as u64);
            assert(((a as u64) << 8u64) | (b as u64) <= 0xffff) by (bit_vector);
            Some(3 + n)
        } else if minor == 26 {
            let (a, b, c, d) = (data[1], data[2], data[3], data[4]);
            let n = ((a as u64) << 24u64) | ((b as u64) << 16u64) | ((c as u64) << 8u64) | (d as u64);
            assert(((a as u64) << 24u64) | ((b as u64) << 16u64) | ((c as u64) << 8u64) | (d as u64)
                <= 0xffff_ffff) by (bit_vector);
            Some(5 + n)
        } else if minor == 27 {
            let n = ((data[1] as u64) << 56u64) | ((data[2] as u64) << 48u64) | ((data[3] as u64)
                << 40u64) | ((data[4] as u64) << 32u64) | ((data[5] as u64) << 24u64) | ((
            data[6] as u64) << 16u64) | ((data[7] as u64) << 8u64) | (data[8] as u64);
            n.checked_add(9)
        } else {
            None
        }
    }

    /// get the length of the secret: the CBOR byte string at its start,
    /// where that fits in the secret.
    pub fn try_len(&self) -> (r: Option<usize>)
        ensures
            r == match cbor_len_spec(self.data@) {
                Some(l) => if l <= SEV_SECRET_MAX_SIZE {
                    Some(l as usize)
                } else {
                    None
                },
                None => None,
            },
    {
        match SevSecret::cbor_len(&self.data) {
            Some(len) => if len <= SEV_SECRET_MAX_SIZE as u64 {
                Some(len as usize)
            } else {
                None
            },
            None => None,
        }
    }

    /// Get a slice of the secret: its first [`try_len`](Self::try_len) bytes.
    pub fn try_as_slice(&self) -> (r: Option<&[u8]>)
        ensures
            match cbor_len_spec(self.data@) {
                Some(l) => if l <= SEV_SECRET_MAX_SIZE {
                    r matches Some(s) && s@ == self.data@.subrange(0, l)
                } else {
                    r is None
                },
                None => r is None,
            },
    {
        match self.try_len() {
            Some(len) => {
                let s: &[u8] = self.data.as_slice();
                Some(&s[0..len])
            },
            None => None,
        }
    }
}

/// Basic information for the shim
#[derive(Copy, Clone, Debug, Default)]
pub struct BootInfo {
    /// The injected secret
    pub secret: SevSecret,
    /// Memory size
    pub mem_size: usize,
}

/// Basic information about the host memory
#[derive(Copy, Clone, Debug, Default)]
pub struct MemInfo {
    /// Loader virtual address of initial shim physical memory
    pub virt_start: usize,
    /// Number of memory slot available for ballooning
    pub mem_slots: usize,
}

} // verus!

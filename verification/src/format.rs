//! Output-format selection by file extension.

use vstd::prelude::*;
use crate::image::{Image, image_wf};
use crate::ppm::ppm_bytes_s;
use crate::bmp::bmp_bytes_s;

verus! {

/// The typed failure of `encode_named`.
#[derive(Clone, Copy, PartialEq, Eq, Structural, Debug)]
pub enum SaveError {
    UnknownFiletype,
}

impl SaveError {
    /// A human-readable reason.
    pub fn message(&self) -> (m: &'static str)
        ensures
            m@ == "Unknown filetype"@,
    {
        "Unknown filetype"
    }
}

/// Whether `name` ends with the four bytes `s0 s1 s2 s3`.
pub open spec fn has_suffix4_s(name: Seq<u8>, s0: u8, s1: u8, s2: u8, s3: u8) -> bool {
    &&& name.len() >= 4
    &&& name[name.len() - 4] == s0
    &&& name[name.len() - 3] == s1
    &&& name[name.len() - 2] == s2
    &&& name[name.len() - 1] == s3
}

/// Whether the file name selects the portable-pixmap encoder.
pub open spec fn is_ppm_name(name: Seq<u8>) -> bool {
    has_suffix4_s(name, 46, 112, 112, 109)
}

/// Whether the file name selects the bitmap encoder.
pub open spec fn is_bmp_name(name: Seq<u8>) -> bool {
    has_suffix4_s(name, 46, 98, 109, 112)
}

fn has_suffix4(name: &Vec<u8>, s0: u8, s1: u8, s2: u8, s3: u8) -> (r: bool)
    ensures
        r == has_suffix4_s(name@, s0, s1, s2, s3),
{
    let n = name.len();
    n >= 4 && name[n - 4] == s0 && name[n - 3] == s1 && name[n - 2] == s2 && name[n - 1] == s3
}

impl Image {
    /// The encoded bytes for the given file name: `.ppm` names select
    /// the portable pixmap, `.bmp` names the bitmap, and any other
    /// name is refused.
    pub fn encode_named(&self, name: &Vec<u8>) -> (res: Result<Vec<u8>, SaveError>)
        requires
            image_wf(*self),
        ensures
            match res {
                Ok(bytes) => {
                    ||| is_ppm_name(name@) && bytes@ == ppm_bytes_s(*self)
                    ||| !is_ppm_name(name@) && is_bmp_name(name@) && bytes@ == bmp_bytes_s(*self)
                },
                Err(e) => !is_ppm_name(name@) && !is_bmp_name(name@) && e
                    == SaveError::UnknownFiletype,
            },
    {
        if has_suffix4(name, 46, 112, 112, 109) {
            Ok(self.to_ppm())
        } else if has_suffix4(name, 46, 98, 109, 112) {
            Ok(self.to_bmp())
        } else {
            Err(SaveError::UnknownFiletype)
        }
    }
}

} // verus!

//! The two flavours of the compact encoding.

use vstd::prelude::*;

verus! {

/// Which flavour of the compact encoding is spoken.
///
/// `Java` is the Modified UTF-8 of the JVM: it differs from `Standard` only in
/// that the nul character is written as the two bytes `C0 80`, so that encoded
/// text never holds a zero byte.
#[derive(Clone, Copy, Debug, PartialEq, Eq, Structural)]
pub enum Variant {
    Standard,
    Java,
}

impl Variant {
    /// Whether the nul character is written as `C0 80`.
    pub open spec fn escapes_nul(self) -> bool {
        self == Variant::Java
    }

    /// Picks the variant from the command line's `java` switch.
    pub fn from_java_flag(java: bool) -> (v: Variant)
        ensures
            v.escapes_nul() == java,
            v == (if java { Variant::Java } else { Variant::Standard }),
    {
        if java {
            Variant::Java
        } else {
            Variant::Standard
        }
    }
}

} // verus!

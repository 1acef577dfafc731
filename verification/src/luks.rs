//! LUKS parameters, secured passphrases, and the cryptsetup command lines.

use vstd::prelude::*;
use crate::common::u64_to_string;

verus! {

// The secured buffer of the secstr crate: a vector that locks its pages and
// zeroes itself on drop. It is opaque here; `sec_bytes` names its contents.
#[verifier::external_type_specification]
#[verifier::external_body]
#[verifier::reject_recursive_types(T)]
pub struct ExSecVec<T: Sized + Copy>(secstr::SecVec<T>);

/// The bytes a secured buffer holds.
pub uninterp spec fn sec_bytes(s: secstr::SecStr) -> Seq<u8>;

/// Relies on secstr::SecVec::new: the vector it is given becomes the
/// secured contents, byte for byte.
#[verifier::external_body]
fn secure_bytes(v: Vec<u8>) -> (r: secstr::SecStr)
    ensures
        sec_bytes(r) == v@,
{
    secstr::SecStr::new(v)
}

/// Relies on secstr::SecVec::unsecure: it borrows exactly the secured
/// contents, which are copied out here for the caller.
#[verifier::external_body]
fn unsecure_bytes(s: &secstr::SecStr) -> (r: Vec<u8>)
    ensures
        r@ == sec_bytes(*s),
{
    s.unsecure().to_vec()
}

/// Relies on secstr::SecVec::clone: the copy holds the same contents in
/// freshly secured memory.
#[verifier::external_body]
fn clone_secret(s: &secstr::SecStr) -> (r: secstr::SecStr)
    ensures
        sec_bytes(r) == sec_bytes(*s),
{
    s.clone()
}

/// A passphrase held in memory that zeroes itself when dropped.
#[derive(Debug)]
pub struct LuksPassphrase {
    secret: secstr::SecStr,
}

impl View for LuksPassphrase {
    type V = Seq<u8>;

    closed spec fn view(&self) -> Seq<u8> {
        sec_bytes(self.secret)
    }
}

impl LuksPassphrase {
    /// Secures `bytes` as a passphrase.
    pub fn new(bytes: Vec<u8>) -> (r: LuksPassphrase)
        ensures
            r@ == bytes@,
    {
        LuksPassphrase { secret: secure_bytes(bytes) }
    }

    /// A copy of the passphrase bytes, for handing to a child process.
    pub fn unsecure(&self) -> (r: Vec<u8>)
        ensures
            r@ == self@,
    {
        unsecure_bytes(&self.secret)
    }

    /// A duplicate in its own secured buffer.
    pub fn duplicate(&self) -> (r: LuksPassphrase)
        ensures
            r@ == self@,
    {
        LuksPassphrase { secret: clone_secret(&self.secret) }
    }

    /// The passphrase with a newline appended, as cryptsetup expects it
    /// on its standard input.
    pub fn append_newline(&self) -> (r: LuksPassphrase)
        ensures
            r@ == self@.push(10u8),
    {
        let mut bytes = unsecure_bytes(&self.secret);
        bytes.push(10u8);
        LuksPassphrase { secret: secure_bytes(bytes) }
    }
}

/// How a LUKS container is to be created.
#[derive(Debug)]
pub struct LuksParams {
    pub key_size: u16,
    pub kind: String,
    pub target_name: String,
    pub passphrase: Option<LuksPassphrase>,
}

/// The arguments that `cryptsetup` takes to format `device` as a LUKS
/// container with the given parameters.
pub fn luks_format_args(params: &LuksParams, device: &str) -> (r: Vec<String>)
    ensures
        r@.len() == 6,
        r@[0]@ == "-s"@,
        r@[1]@ == crate::common::spec_u64_chars(params.key_size as int),
        r@[2]@ == "luksFormat"@,
        r@[3]@ == "--type"@,
        r@[4]@ == params.kind@,
        r@[5]@ == device@,
{
    let mut args: Vec<String> = Vec::new();
    args.push(String::from_str("-s"));
    args.push(u64_to_string(params.key_size as u64));
    args.push(String::from_str("luksFormat"));
    args.push(String::from_str("--type"));
    args.push(params.kind.clone());
    args.push(String::from_str(device));
    args
}

/// The arguments that `cryptsetup` takes to open `device` under the map
/// name `device_map`.
pub fn luks_open_args(device: &str, device_map: &str) -> (r: Vec<String>)
    ensures
        r@.len() == 3,
        r@[0]@ == "open"@,
        r@[1]@ == device@,
        r@[2]@ == device_map@,
{
    let mut args: Vec<String> = Vec::new();
    args.push(String::from_str("open"));
    args.push(String::from_str(device));
    args.push(String::from_str(device_map));
    args
}

/// The arguments that `cryptsetup` takes to close `device`.
pub fn luks_close_args(device: &str) -> (r: Vec<String>)
    ensures
        r@.len() == 2,
        r@[0]@ == "close"@,
        r@[1]@ == device@,
{
    let mut args: Vec<String> = Vec::new();
    args.push(String::from_str("close"));
    args.push(String::from_str(device));
    args
}

/// A cryptsetup container kind token borrowed for conversion.
pub struct CryptTypeStr(pub String);

impl CryptTypeStr {
    pub fn as_str(&self) -> (r: &str)
        ensures
            r@ == self.0@,
    {
        self.0.as_str()
    }
}

/// The LUKS container format versions cryptsetup can create.
#[derive(Debug, Copy, Clone, Eq, Hash, PartialEq, Structural)]
pub enum CryptType {
    Luks1,
    Luks2,
}

impl CryptType {
    /// The kind read from its token; a token that names no kind is refused.
    pub fn from_token(s: &CryptTypeStr) -> (r: Result<CryptType, ()>)
        ensures
            match r {
                Ok(t) => (s.0@ == "LUKS1"@ && t == CryptType::Luks1) || (s.0@ == "LUKS2"@ && t
                    == CryptType::Luks2),
                Err(()) => s.0@ != "LUKS1"@ && s.0@ != "LUKS2"@,
            },
    {
        if crate::common::str_eq(s.0.as_str(), "LUKS1") {
            Ok(CryptType::Luks1)
        } else if crate::common::str_eq(s.0.as_str(), "LUKS2") {
            Ok(CryptType::Luks2)
        } else {
            Err(())
        }
    }

    /// The canonical token of the kind.
    pub fn token(self) -> (r: CryptTypeStr)
        ensures
            self == CryptType::Luks1 ==> r.0@ == "LUKS1"@,
            self == CryptType::Luks2 ==> r.0@ == "LUKS2"@,
    {
        match self {
            CryptType::Luks1 => CryptTypeStr(String::from_str("LUKS1")),
            CryptType::Luks2 => CryptTypeStr(String::from_str("LUKS2")),
        }
    }
}

} // verus!

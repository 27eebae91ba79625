//! Content digests of a finished archive, shown in lower-case hex.
use vstd::prelude::*;

verus! {

/// The MD5 digest of a byte sequence.
pub uninterp spec fn md5_of(data: Seq<u8>) -> Seq<u8>;

/// The SHA-256 digest of a byte sequence.
pub uninterp spec fn sha256_of(data: Seq<u8>) -> Seq<u8>;

/// The lower-case hex digit of a value below 16.
pub open spec fn hex_digit(n: int) -> char {
    seq!['0', '1', '2', '3', '4', '5', '6', '7', '8', '9', 'a', 'b', 'c', 'd', 'e', 'f'][n]
}

/// Lower-case hex: two digits per byte, the high half first.
pub open spec fn lower_hex(b: Seq<u8>) -> Seq<char> {
    Seq::new(
        2 * b.len(),
        |i: int|
            if i % 2 == 0 {
                hex_digit(b[i / 2] as int / 16)
            } else {
                hex_digit(b[i / 2] as int % 16)
            },
    )
}

/// Relies on `md5::Md5::digest` (the `Digest` trait of md-5): the MD5 of
/// the input, 16 bytes long.
#[verifier::external_body]
fn md5_digest(data: &[u8]) -> (r: Vec<u8>)
    ensures
        r@ == md5_of(data@),
        r@.len() == 16,
{
    <md5::Md5 as md5::Digest>::digest(data).to_vec()
}

/// Relies on `sha2::Sha256::digest` (the `Digest` trait of sha2): the
/// SHA-256 of the input, 32 bytes long.
#[verifier::external_body]
fn sha256_digest(data: &[u8]) -> (r: Vec<u8>)
    ensures
        r@ == sha256_of(data@),
        r@.len() == 32,
{
    <sha2::Sha256 as sha2::Digest>::digest(data).to_vec()
}

/// Relies on `base16ct::lower::encode_string`: lower-case hex of the input,
/// two digits per byte, high half first.
#[verifier::external_body]
fn hex_lower(data: &[u8]) -> (r: String)
    ensures
        r@ == lower_hex(data@),
{
    base16ct::lower::encode_string(data)
}

/// The MD5 and SHA-256 digests of an archive's bytes.
pub struct ZipDigest {
    pub md5: Vec<u8>,
    pub sha256: Vec<u8>,
}

impl ZipDigest {
    /// Digests the given contents.
    pub fn new(contents: &[u8]) -> (r: ZipDigest)
        ensures
            r.md5@ == md5_of(contents@),
            r.sha256@ == sha256_of(contents@),
            r.md5@.len() == 16,
            r.sha256@.len() == 32,
    {
        ZipDigest { md5: Vec::new(), sha256: Vec::new() }.md5(contents).sha256(contents)
    }

    /// Sets the MD5 digest from the given contents.
    pub fn md5(self, contents: &[u8]) -> (r: ZipDigest)
        ensures
            r.md5@ == md5_of(contents@),
            r.md5@.len() == 16,
            r.sha256 == self.sha256,
    {
        ZipDigest { md5: md5_digest(contents), sha256: self.sha256 }
    }

    /// Sets the SHA-256 digest from the given contents.
    pub fn sha256(self, contents: &[u8]) -> (r: ZipDigest)
        ensures
            r.sha256@ == sha256_of(contents@),
            r.sha256@.len() == 32,
            r.md5 == self.md5,
    {
        ZipDigest { md5: self.md5, sha256: sha256_digest(contents) }
    }

    /// The two digest lines, each ended by a newline.
    pub fn display(&self) -> (r: String)
        ensures
            r@ == seq!['M', 'D', '5', ' ', ' ', ' ', ':', ' '] + lower_hex(self.md5@) + seq!['\n']
                + seq!['S', 'H', 'A', '2', '5', '6', ':', ' '] + lower_hex(self.sha256@) + seq![
                '\n',
            ],
    {
        let m = hex_lower(self.md5.as_slice());
        let s = hex_lower(self.sha256.as_slice());
        let mut out = String::new();
        proof {
            reveal_strlit("MD5   : ");
            reveal_strlit("\n");
            reveal_strlit("SHA256: ");
        }
        out.append("MD5   : ");
        out.append(m.as_str());
        out.append("\n");
        out.append("SHA256: ");
        out.append(s.as_str());
        out.append("\n");
        proof {
            assert(out@ =~= seq!['M', 'D', '5', ' ', ' ', ' ', ':', ' '] + lower_hex(self.md5@)
                + seq!['\n'] + seq!['S', 'H', 'A', '2', '5', '6', ':', ' '] + lower_hex(
                self.sha256@,
            ) + seq!['\n']);
        }
        out
    }
}

} // verus!

use vstd::prelude::*;

verus! {

/// The 16 bytes found where a magic marker was expected, carried in the
/// two mismatch errors so a failure reports the observed value.
#[derive(Clone, Copy, Debug, PartialEq, Eq, Structural)]
pub struct MagicBytes {
    pub b0: u8,
    pub b1: u8,
    pub b2: u8,
    pub b3: u8,
    pub b4: u8,
    pub b5: u8,
    pub b6: u8,
    pub b7: u8,
    pub b8: u8,
    pub b9: u8,
    pub b10: u8,
    pub b11: u8,
    pub b12: u8,
    pub b13: u8,
    pub b14: u8,
    pub b15: u8,
}

/// The 16 bytes at the front of `s`, packed for an error report.
pub open spec fn magic_of(s: Seq<u8>) -> MagicBytes {
    MagicBytes {
        b0: s[0],
        b1: s[1],
        b2: s[2],
        b3: s[3],
        b4: s[4],
        b5: s[5],
        b6: s[6],
        b7: s[7],
        b8: s[8],
        b9: s[9],
        b10: s[10],
        b11: s[11],
        b12: s[12],
        b13: s[13],
        b14: s[14],
        b15: s[15],
    }
}

impl View for MagicBytes {
    type V = Seq<u8>;

    open spec fn view(&self) -> Seq<u8> {
        seq![
            self.b0, self.b1, self.b2, self.b3, self.b4, self.b5, self.b6, self.b7, self.b8,
            self.b9, self.b10, self.b11, self.b12, self.b13, self.b14, self.b15,
        ]
    }
}

/// Packs the first 16 bytes of a vector for an error report.
pub fn magic_from(v: &Vec<u8>) -> (r: MagicBytes)
    requires
        v@.len() >= 16,
    ensures
        r == magic_of(v@),
{
    MagicBytes {
        b0: v[0],
        b1: v[1],
        b2: v[2],
        b3: v[3],
        b4: v[4],
        b5: v[5],
        b6: v[6],
        b7: v[7],
        b8: v[8],
        b9: v[9],
        b10: v[10],
        b11: v[11],
        b12: v[12],
        b13: v[13],
        b14: v[14],
        b15: v[15],
    }
}

impl MagicBytes {
    /// The observed bytes as a vector, for reporting.
    pub fn to_bytes(&self) -> (r: Vec<u8>)
        ensures
            r@ == self@,
    {
        let mut r: Vec<u8> = Vec::new();
        r.push(self.b0);
        r.push(self.b1);
        r.push(self.b2);
        r.push(self.b3);
        r.push(self.b4);
        r.push(self.b5);
        r.push(self.b6);
        r.push(self.b7);
        r.push(self.b8);
        r.push(self.b9);
        r.push(self.b10);
        r.push(self.b11);
        r.push(self.b12);
        r.push(self.b13);
        r.push(self.b14);
        r.push(self.b15);
        proof {
            assert(r@ =~= self@);
        }
        r
    }
}

/// The key under which a type-dictionary lookup failed: a numeric id
/// with no name (component decode, `CompMap::get_id`), or a name with no
/// id (component encode, `CompMap::get_name`).
#[derive(Debug, PartialEq, Eq)]
pub enum TypeKey {
    Id(u16),
    Name(Vec<u8>),
}

/// Every way a decode or an encode of a save stream can fail.
///
/// All failures are terminal for the operation at hand: malformed
/// structural input cannot be repaired by retrying the same bytes, so no
/// partial model is ever produced. Each variant reports what was
/// observed: the 16 bytes found in place of a magic marker, the rejected
/// tag or version byte, the dictionary key that failed to resolve, and —
/// for every stream error — the byte offset `at` of the field being read
/// when the failure was found.
#[derive(Debug, PartialEq, Eq)]
pub enum SaveError {
    /// The first 16 bytes are not the header magic `"Logic World save"`;
    /// carries the bytes that were found (the mismatch is at offset 0).
    HeaderMismatch { found: MagicBytes },
    /// The format-version byte after the header is not `7`; carries the
    /// byte that was found and its offset.
    UnsupportedFormatVersion { found: u8, at: usize },
    /// The save-type byte after the game version is not `1`; carries the
    /// byte that was found and its offset.
    UnsupportedSaveType { found: u8, at: usize },
    /// The final 16 bytes are not the footer magic `"redstone sux lol"`;
    /// carries the bytes that were found and their offset.
    FooterMismatch { found: MagicBytes, at: usize },
    /// The stream ended before a required byte count was available; also
    /// reported for a length field that no stream could satisfy (a
    /// negative text length, or a known payload shorter than its fixed
    /// fields). `at` is the offset of the field that could not be read.
    UnexpectedEof { at: usize },
    /// A length-prefixed text field holds bytes that are not valid
    /// UTF-8; `at` is the offset of the text bytes.
    InvalidUtf8Text { at: usize },
    /// A peg-address kind byte is neither `1` (input) nor `2` (output);
    /// carries the byte that was found and its offset.
    UnknownPegType { found: u8, at: usize },
    /// A type-dictionary lookup failed: during decode, a component's
    /// numeric type id is absent; during encode, a component's type name
    /// is. Carries the key that failed to resolve.
    MissingTypeMapping(TypeKey),
}

} // verus!

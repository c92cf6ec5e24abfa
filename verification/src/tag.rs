//! Four-byte table tags.

use vstd::prelude::*;

use crate::bytes::{be16, be16_is_periodic, be32};

verus! {

pub const CMAP: u32 = 0x636d_6170;

pub const CVT: u32 = 0x6376_7420;

pub const FPGM: u32 = 0x6670_676d;

pub const GLYF: u32 = 0x676c_7966;

pub const HEAD: u32 = 0x6865_6164;

pub const HHEA: u32 = 0x6868_6561;

pub const HMTX: u32 = 0x686d_7478;

pub const LOCA: u32 = 0x6c6f_6361;

pub const MAXP: u32 = 0x6d61_7870;

pub const NAME: u32 = 0x6e61_6d65;

pub const OS2: u32 = 0x4f53_2f32;

pub const POST: u32 = 0x706f_7374;

pub const PREP: u32 = 0x7072_6570;

/// The name of a font table: four bytes, held as the big-endian number that they spell.
#[derive(Clone, Copy, Debug, PartialEq, Eq, Structural)]
pub struct Tag {
    pub code: u32,
}

impl Tag {
    /// The four bytes of the tag.
    pub open spec fn bytes(self) -> Seq<u8> {
        be32(self.code as int)
    }

    /// The tag that four bytes spell.
    pub fn new(src: &[u8; 4]) -> (tag: Tag)
        ensures
            tag.bytes() == src@,
    {
        let high: u32 = src[0] as u32 * 0x100 + src[1] as u32;
        let low: u32 = src[2] as u32 * 0x100 + src[3] as u32;
        let code: u32 = high * 0x1_0000 + low;
        proof {
            be16_is_periodic(low as int, high as int);
            assert(be16(high as int) =~= seq![src[0], src[1]]) by {
                reveal(be16);
            }
            assert(be16(low as int) =~= seq![src[2], src[3]]) by {
                reveal(be16);
            }
            assert(code as int / 0x1_0000 == high);
        }
        assert(be32(code as int) =~= src@);
        Tag { code }
    }

    /// The four bytes of the tag as characters.
    pub open spec fn text(self) -> Seq<char> {
        self.bytes().map_values(|b: u8| b as char)
    }

    /// The four bytes of the tag as characters.
    pub fn to_text(self) -> (text: String)
        ensures
            text@ == self.text(),
    {
        let bytes: [u8; 4] = self.into_bytes();
        let mut text: String = String::new();
        text.push(bytes[0] as char);
        text.push(bytes[1] as char);
        text.push(bytes[2] as char);
        text.push(bytes[3] as char);
        assert(self.bytes() == bytes@);
        assert(text@ =~= self.text());
        text
    }

    /// The four bytes of the tag.
    pub fn into_bytes(self) -> (bytes: [u8; 4])
        ensures
            bytes@ == self.bytes(),
    {
        let high: u32 = self.code / 0x1_0000;
        let low: u32 = self.code % 0x1_0000;
        let bytes: [u8; 4] = [
            (high / 0x100) as u8,
            (high % 0x100) as u8,
            (low / 0x100) as u8,
            (low % 0x100) as u8,
        ];
        proof {
            be16_is_periodic(low as int, high as int);
            assert(be16(high as int) =~= seq![bytes[0], bytes[1]]) by {
                reveal(be16);
            }
            assert(be16(low as int) =~= seq![bytes[2], bytes[3]]) by {
                reveal(be16);
            }
            assert(self.code as int / 0x1_0000 == high);
        }
        assert(bytes@ =~= self.bytes());
        bytes
    }
}

/// The bytes of a tag spell the big-endian number that it is, and its text has a character for each
/// byte.
pub proof fn tags_are_spelled(tag: Tag)
    ensures
        tag.bytes().len() == 4,
        tag.code == 0x100_0000 * tag.bytes()[0] + 0x1_0000 * tag.bytes()[1] + 0x100
            * tag.bytes()[2] + tag.bytes()[3],
        tag.text().len() == 4,
        forall|i: int| 0 <= i < 4 ==> (#[trigger] tag.text()[i]) as int == tag.bytes()[i],
{
    reveal(be16);
}

} // verus!

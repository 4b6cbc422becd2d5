use vstd::prelude::*;

verus! {

/// The low byte of a character's code point: what one character contributes
/// to an input line's checksum.
pub open spec fn byte_of(c: char) -> u8 {
    ((c as u32) % 256) as u8
}

/// The checksum an `Input` instruction reduces a line to: the sum, modulo
/// 256, of the byte values of all its characters, carriage returns and line
/// feeds excluded.
pub open spec fn checksum_of(s: Seq<char>) -> u8
    decreases s.len(),
{
    if s.len() == 0 {
        0
    } else {
        let rest = checksum_of(s.drop_last());
        let c = s.last();
        if c == '\n' || c == '\r' {
            rest
        } else {
            ((rest + byte_of(c)) % 256) as u8
        }
    }
}

/// Reduces one input line to the byte an `Input` instruction stores:
/// the wrapping sum of the characters' byte values, excluding `\r` and `\n`.
pub fn line_checksum(line: &Vec<char>) -> (r: u8)
    ensures
        r == checksum_of(line@),
{
    let mut acc: u8 = 0;
    let mut i: usize = 0;
    while i < line.len()
        invariant
            i <= line.len(),
            acc == checksum_of(line@.take(i as int)),
        decreases line.len() - i,
    {
        proof {
            assert(line@.take(i + 1).drop_last() =~= line@.take(i as int));
            assert(line@.take(i + 1).last() == line@[i as int]);
        }
        let c = line[i];
        if !(c == '\n' || c == '\r') {
            let b: u8 = ((c as u32) % 256) as u8;
            let sum: u16 = acc as u16 + b as u16;
            acc = (sum % 256) as u8;
        }
        i += 1;
    }
    proof {
        assert(line@.take(line@.len() as int) =~= line@);
    }
    acc
}

} // verus!

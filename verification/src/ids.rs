//! Record identifiers.
//!
//! A record's identifier is a 128-bit token, rendered in its canonical
//! hyphenated hexadecimal form (8-4-4-4-12 lowercase digits) wherever it is
//! embedded in a storage key, and parsed back from that form.

use vstd::prelude::*;

verus! {

/// A record's stable identifier.
#[derive(Clone, Copy, PartialEq, Eq, Structural, Debug)]
pub struct NoteId {
    pub value: u128,
}

/// The lowercase hexadecimal digit for one value below 16.
pub open spec fn hex_char(d: int) -> char {
    if d == 0 {
        '0'
    } else if d == 1 {
        '1'
    } else if d == 2 {
        '2'
    } else if d == 3 {
        '3'
    } else if d == 4 {
        '4'
    } else if d == 5 {
        '5'
    } else if d == 6 {
        '6'
    } else if d == 7 {
        '7'
    } else if d == 8 {
        '8'
    } else if d == 9 {
        '9'
    } else if d == 10 {
        'a'
    } else if d == 11 {
        'b'
    } else if d == 12 {
        'c'
    } else if d == 13 {
        'd'
    } else if d == 14 {
        'e'
    } else {
        'f'
    }
}

/// The value of one lowercase hexadecimal digit.
pub open spec fn hex_val(c: char) -> Option<int> {
    if c == '0' {
        Some(0int)
    } else if c == '1' {
        Some(1int)
    } else if c == '2' {
        Some(2int)
    } else if c == '3' {
        Some(3int)
    } else if c == '4' {
        Some(4int)
    } else if c == '5' {
        Some(5int)
    } else if c == '6' {
        Some(6int)
    } else if c == '7' {
        Some(7int)
    } else if c == '8' {
        Some(8int)
    } else if c == '9' {
        Some(9int)
    } else if c == 'a' {
        Some(10int)
    } else if c == 'b' {
        Some(11int)
    } else if c == 'c' {
        Some(12int)
    } else if c == 'd' {
        Some(13int)
    } else if c == 'e' {
        Some(14int)
    } else if c == 'f' {
        Some(15int)
    } else {
        None
    }
}

/// The `d`-th hexadecimal digit of a 128-bit value, most significant first.
pub open spec fn nibble(v: u128, d: int) -> u128 {
    (v >> ((124 - 4 * d) as u128)) & 0xf
}

/// Whether a canonical-form position holds a hyphen.
pub open spec fn is_hyphen_pos(pos: int) -> bool {
    pos == 8 || pos == 13 || pos == 18 || pos == 23
}

/// The digit index rendered at a non-hyphen canonical-form position.
pub open spec fn digit_of_pos(pos: int) -> int {
    if pos < 8 {
        pos
    } else if pos < 13 {
        pos - 1
    } else if pos < 18 {
        pos - 2
    } else if pos < 23 {
        pos - 3
    } else {
        pos - 4
    }
}

/// The canonical-form position of the `d`-th digit.
pub open spec fn pos_of_digit(d: int) -> int {
    if d < 8 {
        d
    } else if d < 12 {
        d + 1
    } else if d < 16 {
        d + 2
    } else if d < 20 {
        d + 3
    } else {
        d + 4
    }
}

/// One character of the canonical hyphenated form.
pub open spec fn id_char(v: u128, pos: int) -> char {
    if is_hyphen_pos(pos) {
        '-'
    } else {
        hex_char(nibble(v, digit_of_pos(pos)) as int)
    }
}

/// The canonical hyphenated form of an identifier value.
pub open spec fn id_seq(v: u128) -> Seq<char> {
    Seq::new(36, |pos: int| id_char(v, pos))
}

/// The value accumulated from the first `d` digits of a canonical form.
pub open spec fn parse_acc(s: Seq<char>, d: int) -> u128
    decreases d,
{
    if d <= 0 {
        0u128
    } else {
        (parse_acc(s, d - 1) << 4u128) | (hex_val(s[pos_of_digit(d - 1)])->Some_0 as u128)
    }
}

/// Whether a character sequence is a well-formed canonical identifier.
pub open spec fn is_canonical_id(s: Seq<char>) -> bool {
    &&& s.len() == 36
    &&& forall|pos: int| 0 <= pos < 36 && is_hyphen_pos(pos) ==> s[pos] == '-'
    &&& forall|d: int| 0 <= d < 32 ==> hex_val(s[#[trigger] pos_of_digit(d)]) is Some
}

/// What parsing a canonical identifier yields.
pub open spec fn spec_parse_id(s: Seq<char>) -> Option<u128> {
    if is_canonical_id(s) {
        Some(parse_acc(s, 32))
    } else {
        None
    }
}

impl View for NoteId {
    type V = u128;

    open spec fn view(&self) -> u128 {
        self.value
    }
}

/// Appends one hexadecimal digit to a string.
fn push_hex_digit(s: &mut String, d: u128)
    requires
        d < 16,
    ensures
        final(s)@ == old(s)@.push(hex_char(d as int)),
{
    if d == 0 {
        proof {
            reveal_strlit("0");
        }
        s.append("0");
    } else if d == 1 {
        proof {
            reveal_strlit("1");
        }
        s.append("1");
    } else if d == 2 {
        proof {
            reveal_strlit("2");
        }
        s.append("2");
    } else if d == 3 {
        proof {
            reveal_strlit("3");
        }
        s.append("3");
    } else if d == 4 {
        proof {
            reveal_strlit("4");
        }
        s.append("4");
    } else if d == 5 {
        proof {
            reveal_strlit("5");
        }
        s.append("5");
    } else if d == 6 {
        proof {
            reveal_strlit("6");
        }
        s.append("6");
    } else if d == 7 {
        proof {
            reveal_strlit("7");
        }
        s.append("7");
    } else if d == 8 {
        proof {
            reveal_strlit("8");
        }
        s.append("8");
    } else if d == 9 {
        proof {
            reveal_strlit("9");
        }
        s.append("9");
    } else if d == 10 {
        proof {
            reveal_strlit("a");
        }
        s.append("a");
    } else if d == 11 {
        proof {
            reveal_strlit("b");
        }
        s.append("b");
    } else if d == 12 {
        proof {
            reveal_strlit("c");
        }
        s.append("c");
    } else if d == 13 {
        proof {
            reveal_strlit("d");
        }
        s.append("d");
    } else if d == 14 {
        proof {
            reveal_strlit("e");
        }
        s.append("e");
    } else {
        proof {
            reveal_strlit("f");
        }
        s.append("f");
    }
    proof {
        assert(s@ =~= old(s)@.push(hex_char(d as int)));
    }
}

impl NoteId {
    /// Renders the identifier in its canonical hyphenated form.
    pub fn to_canonical(&self) -> (r: String)
        ensures
            r@ == id_seq(self.value),
    {
        let v = self.value;
        let mut s = String::new();
        let mut pos: usize = 0;
        while pos < 36
            invariant
                pos <= 36,
                s@ =~= id_seq(v).take(pos as int),
            decreases 36 - pos,
        {
            if pos == 8 || pos == 13 || pos == 18 || pos == 23 {
                proof {
                    reveal_strlit("-");
                }
                s.append("-");
                proof {
                    assert(s@ =~= id_seq(v).take(pos as int).push('-'));
                }
            } else {
                let d: usize = if pos < 8 {
                    pos
                } else if pos < 13 {
                    pos - 1
                } else if pos < 18 {
                    pos - 2
                } else if pos < 23 {
                    pos - 3
                } else {
                    pos - 4
                };
                proof {
                    assert(d < 32);
                }
                let shift: u128 = 124 - 4 * (d as u128);
                let nib: u128 = (v >> shift) & 0xf;
                proof {
                    assert(shift == (124 - 4 * (d as int)) as u128);
                    assert(nib == nibble(v, d as int));
                    assert(nib < 16) by (bit_vector)
                        requires
                            nib == (v >> shift) & 0xf,
                    ;
                }
                push_hex_digit(&mut s, nib);
                proof {
                    assert(d as int == digit_of_pos(pos as int));
                    assert(id_char(v, pos as int) == hex_char(nib as int));
                }
            }
            pos = pos + 1;
            proof {
                assert(id_seq(v).take(pos as int) =~= id_seq(v).take(pos as int - 1).push(
                    id_char(v, pos as int - 1),
                ));
            }
        }
        proof {
            assert(id_seq(v).take(36) =~= id_seq(v));
        }
        s
    }

    /// Parses an identifier from its canonical hyphenated form.
    pub fn parse(s: &str) -> (r: Option<NoteId>)
        ensures
            match r {
                Some(id) => spec_parse_id(s@) == Some(id.value),
                None => spec_parse_id(s@) is None,
            },
    {
        let n = s.unicode_len();
        if n != 36 {
            return None;
        }
        let mut acc: u128 = 0;
        let mut pos: usize = 0;
        let mut digits: usize = 0;
        while pos < 36
            invariant
                s@.len() == 36,
                pos <= 36,
                digits <= 32,
                pos == pos_of_digit(digits as int) || (is_hyphen_pos(pos as int) && pos + 1
                    == pos_of_digit(digits as int)) || (digits == 32 && pos == 36),
                acc == parse_acc(s@, digits as int),
                forall|p: int| 0 <= p < pos && is_hyphen_pos(p) ==> s@[p] == '-',
                forall|d: int| 0 <= d < digits ==> hex_val(s@[#[trigger] pos_of_digit(d)]) is Some,
            decreases 36 - pos,
        {
            let c = s.get_char(pos);
            if pos == 8 || pos == 13 || pos == 18 || pos == 23 {
                if c != '-' {
                    return None;
                }
            } else {
                let d: u128 = if c == '0' {
                    0
                } else if c == '1' {
                    1
                } else if c == '2' {
                    2
                } else if c == '3' {
                    3
                } else if c == '4' {
                    4
                } else if c == '5' {
                    5
                } else if c == '6' {
                    6
                } else if c == '7' {
                    7
                } else if c == '8' {
                    8
                } else if c == '9' {
                    9
                } else if c == 'a' {
                    10
                } else if c == 'b' {
                    11
                } else if c == 'c' {
                    12
                } else if c == 'd' {
                    13
                } else if c == 'e' {
                    14
                } else if c == 'f' {
                    15
                } else {
                    proof {
                        assert(hex_val(s@[pos_of_digit(digits as int)]) is None);
                    }
                    return None;
                };
                proof {
                    assert(hex_val(c) == Some(d as int));
                }
                acc = (acc << 4u128) | d;
                digits = digits + 1;
            }
            pos = pos + 1;
        }
        proof {
            assert(is_canonical_id(s@));
        }
        Some(NoteId { value: acc })
    }
}

/// One accumulation step recovers the next longer suffix of the value.
proof fn lemma_acc_step(v: u128, sh: u128)
    requires
        sh <= 124,
    ensures
        ((v >> ((sh + 4) as u128)) << 4u128) | ((v >> sh) & 0xf) == v >> sh,
{
    assert(((v >> ((sh + 4) as u128)) << 4u128) | ((v >> sh) & 0xf) == v >> sh) by (bit_vector)
        requires
            sh <= 124,
    ;
}

/// Parsing inverts rendering: the canonical form of a value parses back to
/// that value.
pub proof fn lemma_id_round_trip(v: u128)
    ensures
        spec_parse_id(id_seq(v)) == Some(v),
{
    let s = id_seq(v);
    assert forall|d: int| 0 <= d < 32 implies hex_val(s[#[trigger] pos_of_digit(d)]) is Some by {
        assert(s[pos_of_digit(d)] == hex_char(nibble(v, d) as int));
        let sh = (124 - 4 * d) as u128;
        let nib = nibble(v, d);
        assert(nib == (v >> sh) & 0xf);
        assert(nib < 16) by (bit_vector)
            requires
                nib == (v >> sh) & 0xf,
        ;
    }
    assert(is_canonical_id(s));
    assert forall|d: int| 0 <= d <= 32 implies parse_acc(s, d) == v >> ((128 - 4 * d) as u128) by {
        lemma_parse_acc_eq(v, d);
    }
    assert(parse_acc(s, 32) == v >> 0u128);
    assert(v >> 0u128 == v) by (bit_vector);
}

/// The accumulator over the first `d` digits of a value's canonical form
/// equals the value's top `d` nibbles.
proof fn lemma_parse_acc_eq(v: u128, d: int)
    requires
        0 <= d <= 32,
    ensures
        parse_acc(id_seq(v), d) == v >> ((128 - 4 * d) as u128),
    decreases d,
{
    let s = id_seq(v);
    if d == 0 {
        assert(v >> 128u128 == 0) by (bit_vector);
    } else {
        lemma_parse_acc_eq(v, d - 1);
        let c = s[pos_of_digit(d - 1)];
        assert(c == hex_char(nibble(v, d - 1) as int));
        let sh = (124 - 4 * (d - 1)) as u128;
        let nib = nibble(v, d - 1);
        assert(nib == (v >> sh) & 0xf);
        assert(nib < 16) by (bit_vector)
            requires
                nib == (v >> sh) & 0xf,
        ;
        assert(hex_val(c) == Some(nib as int));
        assert(sh <= 124);
        lemma_acc_step(v, sh);
        assert((128 - 4 * (d - 1)) as u128 == (sh + 4) as u128);
        assert((128 - 4 * d) as u128 == sh);
    }
}

/// Relies on `uuid::Uuid::new_v4` and `Uuid::as_u128`: a freshly generated
/// random identifier. Nothing is promised beyond what holds of every
/// outcome: the version nibble is 4 and the variant bits are `10`.
#[verifier::external_body]
pub fn fresh_id() -> (r: NoteId)
    ensures
        r.value & 0xf0000000000000000000 == 0x40000000000000000000,
        r.value & 0xc000000000000000 == 0x8000000000000000,
{
    NoteId { value: uuid::Uuid::new_v4().as_u128() }
}

} // verus!

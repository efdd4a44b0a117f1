//! Canonical author identities: the email alias table and the parser for
//! `SECONDARY=PRIMARY` alias pairs.

use vstd::prelude::*;
use vstd::string::StringSliceAdditionalSpecFns;
use vstd::utf8::{
    decode_utf8, encode_utf8_decode_utf8, encode_utf8_valid_utf8, is_char_boundary,
    is_char_boundary_iff_not_is_continuation_byte, decode_utf8_split, valid_utf8_split,
    is_continuation_byte, is_leading_byte_width_1, length_of_first_scalar, pop_first_scalar,
    valid_utf8,
};
use crate::{Error, ParseKind};

verus! {

/// The mapping a sequence of alias pairs denotes: each pair maps its
/// secondary email to its primary one, a later pair overriding an earlier
/// pair with the same secondary email.
pub open spec fn alias_map(pairs: Seq<(Seq<char>, Seq<char>)>) -> Map<Seq<char>, Seq<char>>
    decreases pairs.len(),
{
    if pairs.len() == 0 {
        Map::empty()
    } else {
        alias_map(pairs.drop_last()).insert(pairs.last().0, pairs.last().1)
    }
}

/// The model of one stored alias pair.
pub open spec fn pair_view(p: (String, String)) -> (Seq<char>, Seq<char>) {
    (p.0@, p.1@)
}

/// The canonical form of an email under an alias mapping: the mapped
/// primary email when the table knows the email as a secondary one, and the
/// email itself otherwise.
pub open spec fn canonical_email(m: Map<Seq<char>, Seq<char>>, email: Seq<char>) -> Seq<char> {
    if m.contains_key(email) {
        m[email]
    } else {
        email
    }
}

/// The email alias table: an ordered list of `secondary -> primary`
/// mappings, modeled as the mapping from secondary to primary emails.
pub struct AliasTable {
    pairs: Vec<(String, String)>,
}

impl View for AliasTable {
    type V = Map<Seq<char>, Seq<char>>;

    closed spec fn view(&self) -> Map<Seq<char>, Seq<char>> {
        alias_map(self.pairs@.map_values(|p: (String, String)| pair_view(p)))
    }
}

impl AliasTable {
    /// An empty table: every email is already canonical.
    pub fn new() -> (r: AliasTable)
        ensures
            r@ == Map::<Seq<char>, Seq<char>>::empty(),
    {
        AliasTable { pairs: Vec::new() }
    }

    /// Adds one alias pair, overriding any earlier pair for the same
    /// secondary email.
    pub fn add_alias(&mut self, secondary: String, primary: String)
        ensures
            final(self)@ == old(self)@.insert(secondary@, primary@),
    {
        let ghost prev = self.pairs@.map_values(|p: (String, String)| pair_view(p));
        self.pairs.push((secondary, primary));
        proof {
            let now = self.pairs@.map_values(|p: (String, String)| pair_view(p));
            assert(now.drop_last() =~= prev);
        }
    }

    /// The canonical form of `email` under this table.
    pub fn canonical(&self, email: &String) -> (r: String)
        ensures
            r@ == canonical_email(self@, email@),
    {
        let ghost pv = self.pairs@.map_values(|p: (String, String)| pair_view(p));
        let mut j: usize = self.pairs.len();
        assert(pv.take(j as int) =~= pv);
        while j > 0
            invariant
                0 <= j <= self.pairs@.len(),
                pv == self.pairs@.map_values(|p: (String, String)| pair_view(p)),
                alias_map(pv).contains_key(email@) == alias_map(pv.take(j as int)).contains_key(
                    email@,
                ),
                alias_map(pv).contains_key(email@) ==> alias_map(pv)[email@] == alias_map(
                    pv.take(j as int),
                )[email@],
            decreases j,
        {
            let ghost prefix = pv.take(j as int);
            proof {
                assert(prefix.drop_last() =~= pv.take(j - 1));
                assert(prefix.last() == pv[j - 1]);
                assert(alias_map(prefix) == alias_map(pv.take(j - 1)).insert(
                    pv[j - 1].0,
                    pv[j - 1].1,
                ));
                assert(pv[j - 1] == pair_view(self.pairs@[j - 1]));
            }
            if self.pairs[j - 1].0 == *email {
                proof {
                    assert(alias_map(prefix).contains_key(email@));
                    assert(alias_map(prefix)[email@] == self.pairs@[j - 1].1@);
                }
                return self.pairs[j - 1].1.clone();
            }
            j = j - 1;
        }
        assert(pv.take(0) =~= Seq::<(Seq<char>, Seq<char>)>::empty());
        email.clone()
    }
}

/// Splits an alias pair `SECONDARY=PRIMARY` at the first `=`.  Succeeds
/// exactly when the text holds a `=`; the first half never holds one.  A
/// text without `=` is reported as a malformed alias pair.
pub fn parse_email_alias(s: &str) -> (r: Result<(String, String), Error>)
    ensures
        r is Ok <==> s.spec_bytes().contains(61u8),
        r matches Ok(p) ==> {
            &&& s@ == p.0@ + seq!['='] + p.1@
            &&& !vstd::utf8::encode_utf8(p.0@).contains(61u8)
        },
        r matches Err(e) ==> e matches Error::Parse(k, t) && k == ParseKind::EmailAlias && t@
            == s@,
{
    let bytes = s.as_bytes();
    let ghost sb = s.spec_bytes();
    let mut i: usize = 0;
    while i < bytes.len()
        invariant
            0 <= i <= sb.len(),
            sb == s.spec_bytes(),
            bytes@ == sb,
            forall|j: int| 0 <= j < i ==> sb[j] != 61u8,
        decreases sb.len() - i,
    {
        if bytes[i] == 61u8 {
            proof {
                encode_utf8_valid_utf8(s@);
                encode_utf8_decode_utf8(s@);
                assert(sb == vstd::utf8::encode_utf8(s@));
                assert(valid_utf8(sb));
                assert(0 <= i < sb.len());
                is_char_boundary_iff_not_is_continuation_byte(sb, i as int);
                assert(!is_continuation_byte(sb[i as int]));
                assert(is_char_boundary(sb, i as int));
            }
            let (left, rest) = s.split_at(i);
            proof {
                valid_utf8_split(sb, i as int);
                decode_utf8_split(sb, i as int);
                encode_utf8_decode_utf8(left@);
                encode_utf8_decode_utf8(rest@);
                let rb = rest.spec_bytes();
                assert(rb[0] == 61u8);
                assert(is_leading_byte_width_1(rb[0]));
                assert(length_of_first_scalar(rb) == 1);
                assert(is_char_boundary(pop_first_scalar(rb), 0));
                assert(is_char_boundary(rb, 1));
                valid_utf8_split(rb, 1);
                decode_utf8_split(rb, 1);
                lemma_decode_single_eq(rb.subrange(0, 1));
            }
            let (_eq_part, right) = rest.split_at(1);
            proof {
                encode_utf8_decode_utf8(right@);
                assert(s@ == left@ + seq!['='] + right@);
                assert(forall|j: int|
                    0 <= j < left.spec_bytes().len() ==> left.spec_bytes()[j] == sb[j]);
            }
            return Ok((left.to_owned(), right.to_owned()));
        }
        i = i + 1;
    }
    Err(Error::Parse(ParseKind::EmailAlias, s.to_owned()))
}

/// A one-byte sequence holding only the code of `=` decodes to `=`.
proof fn lemma_decode_single_eq(b: Seq<u8>)
    requires
        b.len() == 1,
        b[0] == 61u8,
    ensures
        decode_utf8(b) == seq!['='],
{
    assert(61u8 & 0x7f == 61u8) by (bit_vector);
    assert(is_leading_byte_width_1(b[0]));
    assert(length_of_first_scalar(b) == 1);
    assert(pop_first_scalar(b) =~= Seq::<u8>::empty());
    assert(valid_utf8(Seq::<u8>::empty()));
    assert(vstd::utf8::valid_first_scalar(b));
    assert(valid_utf8(b));
    assert(vstd::utf8::decode_first_scalar(b) == 61u32);
    assert(decode_utf8(Seq::<u8>::empty()) =~= Seq::<char>::empty());
    assert('=' == 61u32 as char);
    assert(decode_utf8(b) =~= seq!['=']);
}

} // verus!

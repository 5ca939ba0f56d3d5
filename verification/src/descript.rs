//! A whole script: a `T` fragment, read from a Script program or written as
//! one.

use vstd::prelude::*;
use crate::astelem::T;
use crate::decode::{decode, decode_tokens, MAX_DEPTH};
use crate::decode_laws::lemma_decode_sound;
use crate::error::{Error, ErrorView};
use crate::expression::{Tree, TreeView};
use crate::from_tree::{read_t, read_v, read_w, tree_t, tree_v, tree_w};
use crate::ascii_laws::lemma_ascii_t;
use crate::text::{ascii_chars, to_text};
use vstd::slice::slice_to_vec;
use crate::key::PublicKey;
use crate::token::{le_value, lemma_lex_from_sound, lex, lex_from, lex_one, lex_tokens, Token};
use crate::script::{number_bytes, OP_PUSHDATA1, OP_PUSHDATA2, OP_PUSHDATA4};

verus! {

/// The tree of a script.
#[derive(Debug, PartialEq, Eq)]
pub struct Descript<K>(pub T<K>);

/// The tree that the Script program `s` spells, or why it spells none.
pub open spec fn parse_script(s: Seq<u8>) -> Result<T<PublicKey>, Error> {
    match lex_tokens(s) {
        Ok(ts) => decode_tokens(ts),
        Err(e) => Err(e),
    }
}

impl<K> Descript<K> {
    /// The invariant of the tree.
    pub open spec fn wf(self) -> bool {
        self.0.wf()
    }

    /// Whether every number in the script is in its range.
    pub fn is_wf(&self) -> (r: bool)
        ensures
            r == self.wf(),
    {
        self.0.is_wf()
    }

}

impl<K> From<T<K>> for Descript<K> {
    fn from(t: T<K>) -> (r: Descript<K>) {
        Descript(t)
    }
}

impl<K> vstd::std_specs::convert::FromSpecImpl<T<K>> for Descript<K> {
    open spec fn obeys_from_spec() -> bool {
        true
    }

    open spec fn from_spec(t: T<K>) -> Descript<K> {
        Descript(t)
    }
}

impl Descript<PublicKey> {
    /// Reads a Script program.
    ///
    /// The answer is that of `parse_script`: the lexer's error where the
    /// bytes are no sequence of tokens, the decoder's where the tokens are
    /// no fragment of type `T`, and else the tree, which is well formed and
    /// whose program is the input, byte for byte.
    pub fn parse(script: &[u8]) -> (r: Result<Descript<PublicKey>, Error>)
        ensures
            match r {
                Ok(d) => parse_script(script@) == Ok::<T<PublicKey>, Error>(d.0),
                Err(e) => parse_script(script@) == Err::<T<PublicKey>, Error>(e),
            },
            r matches Ok(d) ==> d.wf() && d.0.script() == script@,
    {
        let tokens = lex(script)?;
        let top = decode(tokens.as_slice())?;
        proof {
            lemma_decode_sound(tokens@);
        }
        Ok(Descript(top))
    }

    /// Writes the script as a Script program.
    pub fn serialize(&self) -> (r: Vec<u8>)
        ensures
            r@ == self.0.script(),
    {
        self.0.encode()
    }
}

/// The script that an expression spells: its fragment of type `T`, and
/// `NonTopLevel` where the expression is a fragment of another type.
pub open spec fn descript_of(t: TreeView) -> Result<T<PublicKey>, ErrorView> {
    match tree_t(t.name, t.args, MAX_DEPTH as nat) {
        Ok(x) => Ok(x),
        Err(e) => if tree_v(t.name, t.args, MAX_DEPTH as nat) is Ok || tree_w(
            t.name,
            t.args,
            MAX_DEPTH as nat,
        ) is Ok {
            Err(ErrorView::NonTopLevel(t.name))
        } else {
            Err(e)
        },
    }
}

impl Descript<PublicKey> {
    /// Parse an expression tree into a script. The answer is that of
    /// `descript_of`, and a script that is returned is well formed.
    pub fn from_tree(top: &Tree) -> (r: Result<Descript<PublicKey>, Error>)
        ensures
            match r {
                Ok(d) => descript_of(top.model()) == Ok::<T<PublicKey>, ErrorView>(d.0),
                Err(e) => descript_of(top.model()) == Err::<T<PublicKey>, ErrorView>(e@),
            },
            r matches Ok(d) ==> d.wf(),
    {
        match read_t(top.name.as_slice(), &top.args, MAX_DEPTH) {
            Ok(x) => Ok(Descript(x)),
            Err(e) => {
                if read_v(top.name.as_slice(), &top.args, MAX_DEPTH).is_ok() || read_w(
                    top.name.as_slice(),
                    &top.args,
                    MAX_DEPTH,
                ).is_ok() {
                    Err(Error::NonTopLevel(slice_to_vec(top.name.as_slice())))
                } else {
                    Err(e)
                }
            },
        }
    }

    /// The script in the textual form.
    pub fn to_bytes(&self) -> (r: Vec<u8>)
        ensures
            r@ == self.0.text(),
    {
        let mut out: Vec<u8> = Vec::new();
        self.0.write_text(&mut out);
        out
    }

    /// The script in the textual form, as a string.
    pub fn to_string(&self) -> (r: String)
        ensures
            r@ == ascii_chars(self.0.text()),
    {
        proof {
            lemma_ascii_t(self.0);
        }
        to_text(self.to_bytes())
    }
}

/// The codec is bit-exact: a program that is read as a tree is the program
/// of that tree, and the tree is well formed.
pub proof fn law_bit_exact(s: Seq<u8>)
    ensures
        parse_script(s) matches Ok(t) ==> t.wf() && t.script() == s,
{
    if let Ok(ts) = lex_tokens(s) {
        lemma_lex_from_sound(s, 0);
        assert(s.subrange(0, s.len() as int) =~= s);
        lemma_decode_sound(ts);
    }
}

/// Round trip: a tree that the decoder returns is read back from its own
/// program.
pub proof fn law_round_trip(s: Seq<u8>, t: T<PublicKey>)
    requires
        parse_script(s) == Ok::<T<PublicKey>, Error>(t),
    ensures
        parse_script(t.script()) == Ok::<T<PublicKey>, Error>(t),
{
    law_bit_exact(s);
}

/// The lexer gets from byte `from` to byte `i` without an error.
pub open spec fn lex_reaches(s: Seq<u8>, from: int, i: int) -> bool
    decreases i - from,
{
    if from >= i {
        from == i
    } else if from < 0 {
        false
    } else {
        match lex_one(s, from) {
            Ok((_, extra)) => from + 1 + extra <= i && lex_reaches(s, from + 1 + extra, i),
            Err(_) => false,
        }
    }
}

/// A data push at byte `i` whose length a shorter opcode could have
/// announced.
pub open spec fn non_minimal_push_at(s: Seq<u8>, i: int) -> bool {
    ||| s[i] == OP_PUSHDATA1 && i + 1 < s.len() && s[i + 1] < 0x4c
    ||| s[i] == OP_PUSHDATA2 && i + 2 < s.len() && s[i + 2] == 0
    ||| s[i] == OP_PUSHDATA4 && i + 4 < s.len() && s[i + 3] == 0 && s[i + 4] == 0
}

/// A complete push at byte `i` of one to four bytes that spell a number not
/// below zero, but not in the one way a number is written.
pub open spec fn non_minimal_number_at(s: Seq<u8>, i: int) -> bool {
    let d = s.subrange(i + 1, i + 1 + s[i]);
    &&& 1 <= s[i] <= 4
    &&& i + s[i] < s.len()
    &&& d.last() < 0x80
    &&& !(le_value(d) > 16 && number_bytes(le_value(d)) == d)
}

proof fn lemma_error_at(s: Seq<u8>, from: int, i: int, e: Error)
    requires
        0 <= from <= i < s.len(),
        lex_reaches(s, from, i),
        lex_one(s, i) == Err::<(Token, nat), Error>(e),
    ensures
        lex_from(s, from) == Err::<Seq<Token>, Error>(e),
    decreases i - from,
{
    if from < i {
        match lex_one(s, from) {
            Ok((t, extra)) => {
                lemma_error_at(s, from + 1 + extra, i, e);
            },
            Err(_) => {},
        }
    }
}

/// Canonicalization: a program in which the lexer comes upon a non-minimal
/// push is rejected as such.
pub proof fn law_non_minimal_push(s: Seq<u8>, i: int)
    requires
        0 <= i < s.len(),
        lex_reaches(s, 0, i),
        non_minimal_push_at(s, i),
    ensures
        parse_script(s) == Err::<T<PublicKey>, Error>(Error::NonMinimalPush),
{
    lemma_error_at(s, 0, i, Error::NonMinimalPush);
}

/// Canonicalization: a program in which the lexer comes upon a non-minimal
/// number is rejected as such.
pub proof fn law_non_minimal_number(s: Seq<u8>, i: int)
    requires
        0 <= i < s.len(),
        lex_reaches(s, 0, i),
        non_minimal_number_at(s, i),
    ensures
        parse_script(s) == Err::<T<PublicKey>, Error>(Error::NonMinimalNumber),
{
    lemma_error_at(s, 0, i, Error::NonMinimalNumber);
}

} // verus!

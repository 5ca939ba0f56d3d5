//! Output descriptors and Miniscript: a typed tree of Script fragments, its
//! byte-exact Script codec, its textual form, a satisfier that builds
//! witness stacks, and the envelope that turns a tree into a scriptPubKey,
//! an address and a spending input.
//!
//! Every function below is verified against the contract it carries. What
//! is taken on trust are the calls into the `bitcoin` crate in `primitives`
//! and the one call into `std` at the end of `text`.
//!
//! The modules, leaves first:
//!
//! - `bytes`, `list`, `key`, `primitives`: byte strings, lists, public keys
//!   and the outside functions;
//! - `script`, `token`: the bytes of Script and the lexer;
//! - `astelem`, `decode`, `descript`: the fragments, the decoder and a
//!   whole script;
//! - `stack`, `satisfy`, `sizes`, `size_laws`: witness stacks, the
//!   satisfier and the bounds on what it returns;
//! - `text`, `expression`, `names`, `from_tree`, `printer`, `to_tree`: the
//!   textual form;
//! - `translate`: the keys of a tree and their replacement;
//! - `descriptor`: the envelopes;
//! - `error`, `message`: the errors and their lines of text;
//! - `machine`, `templates`, `passing`, `soundness`: a model of how Script
//!   runs a program, and the proof that a script accepts the stack that
//!   the satisfier returns for it;
//! - the modules whose names end in `_laws`, `read_back` and
//!   `text_round_trip`: what holds of all of these together.

pub mod bytes;
pub mod list;
pub mod primitives;
pub mod key;
pub mod script;
pub mod error;
pub mod message;
pub mod token;
pub mod astelem;
pub mod decode;
pub mod decode_laws;
pub mod descript;
pub mod translate;
pub mod translate_laws;
pub mod stack;
pub mod satisfy;
pub mod satisfy_laws;
pub mod machine;
pub mod machine_laws;
pub mod templates;
pub mod passing;
pub mod soundness;
pub mod sizes;
pub mod size_laws;
pub mod descriptor;
pub mod text;
pub mod text_laws;
pub mod expression;
pub mod expression_laws;
pub mod names;
pub mod name_laws;
pub mod from_tree;
pub mod printer;
pub mod print_laws;
pub mod ascii_laws;
pub mod to_tree;
pub mod read_back;
pub mod text_round_trip;

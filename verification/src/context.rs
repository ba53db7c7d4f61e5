//! The execution context: what the command line asks the cipher to do.
//!
//! The argument list is taken as the process hands it over, with the program
//! name at position 0 and the tokens after it. Two flags are recognised, each
//! in either case: `-d` asks for decryption and `-k` names the key, which is
//! the argument one position after the flag. Every token from position 1 on
//! is looked at in turn, also one that an earlier `-k` has already taken as
//! its key; any other token is passed over. A `-k` in the last position names
//! no key and leaves an earlier one in force, and of several `-k` that name a
//! key the last one wins.

use vstd::prelude::*;
use vstd::string::StrSliceExecFns;

verus! {

/// What one run of the cipher works with: the direction and the key.
#[derive(Debug, Clone, PartialEq, Eq)]
pub struct AsterExecutionContext {
    pub decrypt: bool,
    pub key: String,
}

/// The mathematical content of an [`AsterExecutionContext`].
pub struct AsterContextView {
    pub decrypt: bool,
    pub key: Seq<char>,
}

impl View for AsterExecutionContext {
    type V = AsterContextView;

    open spec fn view(&self) -> AsterContextView {
        AsterContextView { decrypt: self.decrypt, key: self.key@ }
    }
}

impl AsterExecutionContext {
    /// A context is valid when it holds a key: the cipher needs at least one
    /// key character to take a shift from.
    pub open spec fn valid(&self) -> bool {
        self.key@.len() > 0
    }
}

/// Whether `token` is a dash followed by the letter in one of its two cases.
pub open spec fn is_flag(token: Seq<char>, lower: char, upper: char) -> bool {
    token.len() == 2 && token[0] == '-' && (token[1] == lower || token[1] == upper)
}

/// Whether `token` is `-d` or `-D`.
pub open spec fn is_decrypt_flag(token: Seq<char>) -> bool {
    is_flag(token, 'd', 'D')
}

/// Whether `token` is `-k` or `-K`.
pub open spec fn is_key_flag(token: Seq<char>) -> bool {
    is_flag(token, 'k', 'K')
}

/// Whether position `j` of `args` holds a key flag that names a key: it is
/// past the program name and another argument follows it.
pub open spec fn names_key(args: Seq<Seq<char>>, j: int) -> bool {
    1 <= j && j + 1 < args.len() && is_key_flag(args[j])
}

/// The last position below `end` at which a key flag names a key, if there
/// is one.
pub open spec fn last_key_flag(args: Seq<Seq<char>>, end: int) -> Option<int>
    decreases end,
{
    if end <= 1 {
        None
    } else if names_key(args, end - 1) {
        Some(end - 1)
    } else {
        last_key_flag(args, end - 1)
    }
}

/// Whether a decrypt flag stands at some position from 1 up to, but not
/// including, `end`.
pub open spec fn decrypt_flag_before(args: Seq<Seq<char>>, end: int) -> bool {
    exists|i: int| 1 <= i < end && i < args.len() && is_decrypt_flag(#[trigger] args[i])
}

/// The key in force once the positions below `end` have been looked at: the
/// argument after the last key flag that names one, and the empty key where
/// there is none.
pub open spec fn key_before(args: Seq<Seq<char>>, end: int) -> Seq<char> {
    match last_key_flag(args, end) {
        Some(j) => args[j + 1],
        None => Seq::empty(),
    }
}

/// The context that an argument list asks for.
pub open spec fn parse_args(args: Seq<Seq<char>>) -> AsterContextView {
    AsterContextView {
        decrypt: decrypt_flag_before(args, args.len() as int),
        key: key_before(args, args.len() as int),
    }
}

/// The arguments as sequences of characters.
pub open spec fn arg_views(args: Seq<String>) -> Seq<Seq<char>> {
    args.map_values(|arg: String| arg@)
}

/// Tells whether `token` is the flag with the given letter.
fn token_is_flag(token: &str, lower: char, upper: char) -> (found: bool)
    ensures
        found == is_flag(token@, lower, upper),
{
    if token.unicode_len() != 2 {
        return false;
    }
    let dash = token.get_char(0);
    let letter = token.get_char(1);
    dash == '-' && (letter == lower || letter == upper)
}

/// Builds the execution context from the process's argument list.
///
/// `args` is the list as the process receives it: `args[0]` is the program
/// name, which is never read as a flag, and the tokens follow from position 1.
pub fn derive_aster_context(args: &Vec<String>) -> (ctx: AsterExecutionContext)
    ensures
        ctx@ == parse_args(arg_views(args@)),
{
    let ghost tokens = arg_views(args@);
    let mut decrypt = false;
    let mut key = String::new();
    let mut i: usize = 1;
    while i < args.len()
        invariant
            1 <= i,
            i <= args.len() || i == 1,
            tokens == arg_views(args@),
            decrypt == decrypt_flag_before(tokens, i as int),
            key@ == key_before(tokens, i as int),
        decreases args.len() - i,
    {
        let token = args[i].as_str();
        assert(token@ == tokens[i as int]);
        if token_is_flag(token, 'd', 'D') {
            decrypt = true;
        } else if token_is_flag(token, 'k', 'K') {
            if i + 1 < args.len() {
                key = args[i + 1].clone();
            }
        }
        i += 1;
    }
    AsterExecutionContext { decrypt, key }
}

/// Tells whether the context holds a key.
pub fn validate_aster_context(ctx: &AsterExecutionContext) -> (ok: bool)
    ensures
        ok == ctx.valid(),
{
    !ctx.key.as_str().is_empty()
}

/// What [`last_key_flag`] finds: a position that names a key and has no
/// such position between it and `end`, or nothing where no position below
/// `end` names a key.
pub proof fn lemma_last_key_flag(args: Seq<Seq<char>>, end: int)
    ensures
        match last_key_flag(args, end) {
            Some(j) => {
                &&& j < end
                &&& names_key(args, j)
                &&& forall|m: int| j < m < end ==> !names_key(args, m)
            },
            None => forall|m: int| m < end ==> !names_key(args, m),
        },
    decreases end,
{
    if end > 1 && !names_key(args, end - 1) {
        lemma_last_key_flag(args, end - 1);
    }
}

/// Two tokens that are the same up to the case of a flag's letter: equal
/// tokens, two decrypt flags, or two key flags.
pub open spec fn same_up_to_flag_case(a: Seq<char>, b: Seq<char>) -> bool {
    ||| a == b
    ||| is_decrypt_flag(a) && is_decrypt_flag(b)
    ||| is_key_flag(a) && is_key_flag(b)
}

/// The flags are recognised in either case: two argument lists that differ
/// only in the case of their flags ask for the same direction and for the
/// same key, up to the case of a flag that itself stands as the key.
pub proof fn lemma_flag_case_insensitive(a: Seq<Seq<char>>, b: Seq<Seq<char>>)
    requires
        a.len() == b.len(),
        forall|i: int| 1 <= i < a.len() ==> same_up_to_flag_case(#[trigger] a[i], b[i]),
    ensures
        parse_args(a).decrypt == parse_args(b).decrypt,
        same_up_to_flag_case(parse_args(a).key, parse_args(b).key),
{
    let end = a.len() as int;
    assert forall|i: int|
        #![trigger a[i]]
        #![trigger b[i]]
        1 <= i < end implies is_decrypt_flag(a[i]) == is_decrypt_flag(b[i]) && is_key_flag(a[i])
        == is_key_flag(b[i]) by {
        assert(same_up_to_flag_case(a[i], b[i]));
    }
    lemma_same_key_flags(a, b, end);
    lemma_last_key_flag(a, end);
}

/// Argument lists with key flags at the same positions have their last key
/// flag at the same position.
proof fn lemma_same_key_flags(a: Seq<Seq<char>>, b: Seq<Seq<char>>, end: int)
    requires
        a.len() == b.len(),
        forall|i: int| 1 <= i < a.len() ==> is_key_flag(#[trigger] a[i]) == is_key_flag(b[i]),
    ensures
        last_key_flag(a, end) == last_key_flag(b, end),
    decreases end,
{
    if end > 1 {
        lemma_same_key_flags(a, b, end - 1);
    }
}

} // verus!

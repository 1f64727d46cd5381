//! The builtin functions that an environment value may call.

use crate::text::{
    append_char, chars_of, decimal, decimal_string, digit_char, find_char, lemma_position_found,
    lemma_position_of,
    position_of, spells, split, split_at_char, texts,
};
use vstd::prelude::*;
use vstd::slice::slice_subrange;

verus! {

/// The builtin functions.
#[derive(Clone, Copy, Debug, PartialEq, Eq, Structural)]
pub enum FunctionIdentifier {
    /// The seconds since the first second of 1970, as a decimal numeral.
    Timestamp,
    /// A decimal numeral below `RANDOM_LIMIT`, drawn anew for each call.
    Random,
    /// A random identifier of 128 bits in the layout of RFC 4122, version 4.
    Uuid,
}

/// A parsed call: the function and its arguments as they were written.
#[derive(Clone, Debug)]
pub struct FunctionSpec {
    pub identifier: FunctionIdentifier,
    pub arguments: Vec<String>,
}

/// A `FunctionSpec` as mathematical data.
pub struct FunctionSpecView {
    pub identifier: FunctionIdentifier,
    pub arguments: Seq<Seq<char>>,
}

impl View for FunctionSpec {
    type V = FunctionSpecView;

    open spec fn view(&self) -> FunctionSpecView {
        FunctionSpecView { identifier: self.identifier, arguments: texts(self.arguments@) }
    }
}

/// Why a value is no call of a builtin function.
#[derive(Clone, Copy, Debug, PartialEq, Eq, Structural)]
pub enum ParseError {
    /// The brackets do not enclose one argument list at the end of the value.
    Malformed,
    /// The value has the shape of a call, but no builtin function has that name.
    UnknownFunction,
}

/// The builtin function called `name`.
pub open spec fn function_named(name: Seq<char>) -> Option<FunctionIdentifier> {
    if name == "timestamp"@ {
        Some(FunctionIdentifier::Timestamp)
    } else if name == "random"@ {
        Some(FunctionIdentifier::Random)
    } else if name == "uuid"@ {
        Some(FunctionIdentifier::Uuid)
    } else {
        None
    }
}

/// `call` has the shape of a call: a name alone, or a name and one bracketed argument list
/// that ends the value and holds no further bracket.
pub open spec fn call_shaped(call: Seq<char>) -> bool {
    let open = position_of(call, '(');
    if open == call.len() {
        position_of(call, ')') == call.len()
    } else {
        let rest = call.skip(open + 1);
        position_of(rest, '(') == rest.len() && position_of(rest, ')') == rest.len() - 1
    }
}

/// The name that `call` calls: what stands before its first opening bracket.
pub open spec fn call_name(call: Seq<char>) -> Seq<char> {
    call.take(position_of(call, '('))
}

/// The arguments of a call-shaped `call`: the parts between the commas of its bracketed
/// list; none where there is no list or nothing in it.
pub open spec fn call_arguments(call: Seq<char>) -> Seq<Seq<char>> {
    let open = position_of(call, '(');
    if open + 2 >= call.len() {
        Seq::empty()
    } else {
        split(call.subrange(open + 1, call.len() - 1), ',')
    }
}

/// What `call` parses to.
pub open spec fn parsed(call: Seq<char>) -> Result<FunctionSpecView, ParseError> {
    if !call_shaped(call) {
        Err(ParseError::Malformed)
    } else {
        match function_named(call_name(call)) {
            Some(identifier) => Ok(
                FunctionSpecView { identifier, arguments: call_arguments(call) },
            ),
            None => Err(ParseError::UnknownFunction),
        }
    }
}

/// `s` holds no bracket.
pub open spec fn bracket_free(s: Seq<char>) -> bool {
    forall|i: int| 0 <= i < s.len() ==> s[i] != '(' && s[i] != ')'
}

/// A name without brackets parses as the call of the builtin function of that name,
/// without arguments.
pub proof fn lemma_bare_name_parses(name: Seq<char>)
    requires
        bracket_free(name),
    ensures
        parsed(name) == match function_named(name) {
            Some(identifier) => Ok::<FunctionSpecView, ParseError>(
                FunctionSpecView { identifier, arguments: Seq::empty() },
            ),
            None => Err(ParseError::UnknownFunction),
        },
{
    lemma_position_found(name, '(', name.len() as int);
    lemma_position_found(name, ')', name.len() as int);
    assert(name.take(name.len() as int) =~= name);
}

/// A name and a bracketed list behind it, both without further brackets, parse as the
/// call of the builtin function of that name with the parts of the list between its commas
/// as arguments; an empty list gives no argument.
pub proof fn lemma_call_parses(name: Seq<char>, list: Seq<char>)
    requires
        bracket_free(name),
        bracket_free(list),
    ensures
        parsed(name + seq!['('] + list + seq![')']) == match function_named(name) {
            Some(identifier) => Ok::<FunctionSpecView, ParseError>(
                FunctionSpecView {
                    identifier,
                    arguments: if list.len() == 0 {
                        Seq::empty()
                    } else {
                        split(list, ',')
                    },
                },
            ),
            None => Err(ParseError::UnknownFunction),
        },
{
    let call = name + seq!['('] + list + seq![')'];
    let open = name.len() as int;
    assert forall|i: int| 0 <= i < open implies call[i] != '(' by {
        assert(call[i] == name[i]);
    }
    lemma_position_found(call, '(', open);
    let rest = call.skip(open + 1);
    assert(rest =~= list + seq![')']);
    assert forall|i: int| 0 <= i < rest.len() implies rest[i] != '(' by {
        if i < list.len() {
            assert(rest[i] == list[i]);
        }
    }
    lemma_position_found(rest, '(', rest.len() as int);
    assert forall|i: int| 0 <= i < list.len() implies rest[i] != ')' by {
        assert(rest[i] == list[i]);
    }
    lemma_position_found(rest, ')', list.len() as int);
    assert(call.take(open) =~= name);
    assert(call.subrange(open + 1, call.len() - 1) =~= list);
}

/// The builtin function called `name`.
pub fn function_by_name(name: &[char]) -> (found: Option<FunctionIdentifier>)
    ensures
        found == function_named(name@),
{
    if spells(name, "timestamp") {
        Some(FunctionIdentifier::Timestamp)
    } else if spells(name, "random") {
        Some(FunctionIdentifier::Random)
    } else if spells(name, "uuid") {
        Some(FunctionIdentifier::Uuid)
    } else {
        None
    }
}

/// Parses the value of a function entry. Every value has an outcome: a call of a builtin
/// function, or the reason why it is none.
pub fn parse(call: &str) -> (outcome: Result<FunctionSpec, ParseError>)
    ensures
        match outcome {
            Ok(spec) => parsed(call@) == Ok::<FunctionSpecView, ParseError>(spec@),
            Err(error) => parsed(call@) == Err::<FunctionSpecView, ParseError>(error),
        },
{
    let letters = chars_of(call);
    let all = letters.as_slice();
    let open = find_char(all, '(');
    proof {
        lemma_position_of(all@, '(');
    }
    let mut arguments: Vec<String> = Vec::new();
    assert(texts(arguments@) =~= Seq::<Seq<char>>::empty());
    if open == all.len() {
        if find_char(all, ')') != all.len() {
            return Err(ParseError::Malformed);
        }
    } else {
        let rest = slice_subrange(all, open + 1, all.len());
        assert(rest@ =~= all@.skip(open + 1));
        if find_char(rest, '(') != rest.len() || rest.len() == 0 || find_char(rest, ')')
            != rest.len() - 1 {
            proof {
                lemma_position_of(rest@, ')');
            }
            return Err(ParseError::Malformed);
        }
        if rest.len() > 1 {
            let list = slice_subrange(rest, 0, rest.len() - 1);
            assert(list@ =~= all@.subrange(open + 1, all@.len() - 1));
            arguments = split_at_char(list, ',');
        }
    }
    let name = slice_subrange(all, 0, open);
    assert(name@ =~= call_name(all@));
    match function_by_name(name) {
        Some(identifier) => Ok(FunctionSpec { identifier, arguments }),
        None => Err(ParseError::UnknownFunction),
    }
}

/// What the machine supplies for one evaluation: its clock and two random words.
#[derive(Clone, Copy, Debug)]
pub struct Sample {
    /// Seconds since the first second of 1970.
    pub seconds: u64,
    pub high: u64,
    pub low: u64,
}

/// The outputs of `Random` are the decimal numerals below this limit.
pub const RANDOM_LIMIT: u64 = 2147483647;

/// The hexadecimal digit for `d`, for `d` below sixteen.
pub open spec fn hex_char(d: nat) -> char {
    if d < 10 {
        digit_char(d)
    } else if d == 10 {
        'a'
    } else if d == 11 {
        'b'
    } else if d == 12 {
        'c'
    } else if d == 13 {
        'd'
    } else if d == 14 {
        'e'
    } else {
        'f'
    }
}

/// The last `width` hexadecimal digits of `n`, the most significant first.
pub open spec fn hex(n: nat, width: nat) -> Seq<char>
    decreases width,
{
    if width == 0 {
        Seq::empty()
    } else {
        hex(n / 16, (width - 1) as nat).push(hex_char(n % 16))
    }
}

/// The identifier made of the 128 bits of `high` and `low`, with the four bits of the version
/// and the two of the variant set as RFC 4122 asks of a random identifier: 32 hexadecimal
/// digits in groups of 8, 4, 4, 4 and 12.
pub open spec fn uuid_text(high: u64, low: u64) -> Seq<char> {
    hex(high as nat / 0x1_0000_0000, 8) + seq!['-'] + hex(high as nat / 0x1_0000, 4) + seq![
        '-',
        '4',
    ] + hex(high as nat, 3) + seq![
        '-',
        hex_char(8 + (low as nat / 0x1000_0000_0000_0000) % 4),
    ] + hex(low as nat / 0x1_0000_0000_0000, 3) + seq!['-'] + hex(low as nat, 12)
}

/// What `identifier` gives when the machine supplies `sample`.
pub open spec fn output_of(identifier: FunctionIdentifier, sample: Sample) -> Seq<char> {
    match identifier {
        FunctionIdentifier::Timestamp => decimal(sample.seconds as nat),
        FunctionIdentifier::Random => decimal((sample.high % RANDOM_LIMIT) as nat),
        FunctionIdentifier::Uuid => uuid_text(sample.high, sample.low),
    }
}

fn hex_of(d: u64) -> (c: char)
    requires
        d < 16,
    ensures
        c == hex_char(d as nat),
{
    if d == 0 {
        '0'
    } else if d == 1 {
        '1'
    } else if d == 2 {
        '2'
    } else if d == 3 {
        '3'
    } else if d == 4 {
        '4'
    } else if d == 5 {
        '5'
    } else if d == 6 {
        '6'
    } else if d == 7 {
        '7'
    } else if d == 8 {
        '8'
    } else if d == 9 {
        '9'
    } else if d == 10 {
        'a'
    } else if d == 11 {
        'b'
    } else if d == 12 {
        'c'
    } else if d == 13 {
        'd'
    } else if d == 14 {
        'e'
    } else {
        'f'
    }
}

/// Appends the last `width` hexadecimal digits of `n` to `out`.
pub fn append_hex(out: &mut String, n: u64, width: u8)
    ensures
        final(out)@ == old(out)@ + hex(n as nat, width as nat),
    decreases width,
{
    if width > 0 {
        append_hex(out, n / 16, width - 1);
        append_char(out, hex_of(n % 16));
    }
}

/// The output of `identifier` for what the machine supplied in `sample`.
pub fn evaluate_with(identifier: FunctionIdentifier, sample: &Sample) -> (output: String)
    ensures
        output@ == output_of(identifier, *sample),
{
    match identifier {
        FunctionIdentifier::Timestamp => decimal_string(sample.seconds as u128),
        FunctionIdentifier::Random => decimal_string((sample.high % RANDOM_LIMIT) as u128),
        FunctionIdentifier::Uuid => {
            let mut out = String::new();
            append_hex(&mut out, sample.high / 0x1_0000_0000, 8);
            append_char(&mut out, '-');
            append_hex(&mut out, sample.high / 0x1_0000, 4);
            append_char(&mut out, '-');
            append_char(&mut out, '4');
            append_hex(&mut out, sample.high, 3);
            append_char(&mut out, '-');
            append_char(&mut out, hex_of(8 + (sample.low / 0x1000_0000_0000_0000) % 4));
            append_hex(&mut out, sample.low / 0x1_0000_0000_0000, 3);
            append_char(&mut out, '-');
            append_hex(&mut out, sample.low, 12);
            assert(out@ =~= uuid_text(sample.high, sample.low));
            out
        },
    }
}

/// `SystemTime::elapsed` of std on `UNIX_EPOCH`: the time since the first second of 1970 on
/// the clock of the machine, in whole seconds; zero where the clock stands before it.
/// Nothing is claimed of the number.
#[verifier::external_body]
fn clock_seconds() -> u64 {
    match std::time::UNIX_EPOCH.elapsed() {
        Ok(elapsed) => elapsed.as_secs(),
        Err(_) => 0,
    }
}

/// `RandomState::new` of std, which draws random keys and gives each state other keys than
/// the one before it, as the word that these keys hash a constant to. Nothing is claimed of
/// the number.
#[verifier::external_body]
fn random_word() -> u64 {
    std::hash::BuildHasher::hash_one(&std::hash::RandomState::new(), 0u8)
}

/// Reads the clock and draws two random words.
fn sample() -> Sample {
    Sample { seconds: clock_seconds(), high: random_word(), low: random_word() }
}

/// The output of `identifier` now: what `evaluate_with` gives for some reading of the clock
/// and some random words.
pub fn evaluate(identifier: FunctionIdentifier) -> (output: String)
    ensures
        exists|sample: Sample| output@ == output_of(identifier, sample),
{
    let now = sample();
    evaluate_with(identifier, &now)
}

} // verus!

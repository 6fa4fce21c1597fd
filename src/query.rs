//! Query strings: parameters and percent-decoding.

use vstd::prelude::*;
use vstd::utf8::{decode_utf8, encode_utf8, valid_utf8};

use crate::color::{hex_value, hex_value_of};
use crate::font::split_first;
use crate::strings::{push_char, str_eq};

verus! {

/// One parameter of a query string: a bare name, or a name and its decoded
/// value.
#[derive(Debug, Clone)]
pub enum Parameter {
    Boolean(String),
    Value(String, String),
}

/// Why a query string could not be read.
#[derive(Debug, Clone)]
pub enum QueryParseError {
    /// A percent escape whose first digit is this character is not hexadecimal.
    ImproperHex(char),
    /// A percent escape is cut short; this is what there is of it.
    IncompletePercent(String),
    /// The decoded bytes are not UTF-8.
    InvalidUtf8,
}

/// A parsed query string: its parameters in order.
#[derive(Debug, Clone)]
pub struct Query {
    parameters: Vec<Parameter>,
}

/// An error as a kind and the text it carries: 0 for a bad hexadecimal
/// digit, 1 for a cut escape, 2 for bytes that are not UTF-8.
pub open spec fn error_view(e: QueryParseError) -> (int, Seq<char>) {
    match e {
        QueryParseError::ImproperHex(c) => (0, seq![c]),
        QueryParseError::IncompletePercent(s) => (1, s@),
        QueryParseError::InvalidUtf8 => (2, Seq::empty()),
    }
}

/// A parameter as (is a bare name, name, value).
pub open spec fn parameter_view(p: Parameter) -> (bool, Seq<char>, Seq<char>) {
    match p {
        Parameter::Boolean(k) => (true, k@, Seq::empty()),
        Parameter::Value(k, v) => (false, k@, v@),
    }
}

/// The byte that a percent escape with digits `u` and `l` writes; a bad
/// digit of either kind is reported with the first digit.
pub open spec fn escape_of(u: char, l: char) -> Result<u8, (int, Seq<char>)> {
    match (hex_value(u), hex_value(l)) {
        (Some(a), Some(b)) => Ok((a * 16 + b) as u8),
        _ => Err((0, seq![u])),
    }
}

/// The bytes that the percent-encoded text `s` stands for from position
/// `i`: `%XY` is the byte `0xXY`, any other character its UTF-8 encoding.
pub open spec fn percent_decode(s: Seq<char>, i: int) -> Result<Seq<u8>, (int, Seq<char>)>
    decreases s.len() - i,
{
    if i < 0 || i >= s.len() {
        Ok(Seq::empty())
    } else if s[i] == '%' {
        if i + 2 < s.len() {
            match escape_of(s[i + 1], s[i + 2]) {
                Ok(b) => match percent_decode(s, i + 3) {
                    Ok(rest) => Ok(seq![b] + rest),
                    Err(e) => Err(e),
                },
                Err(e) => Err(e),
            }
        } else if i + 1 < s.len() {
            Err((1, seq!['%', s[i + 1]]))
        } else {
            Err((1, seq!['%']))
        }
    } else {
        match percent_decode(s, i + 1) {
            Ok(rest) => Ok(encode_utf8(seq![s[i]]) + rest),
            Err(e) => Err(e),
        }
    }
}

/// The text that the percent-encoded `s` stands for.
pub open spec fn uncoded(s: Seq<char>) -> Result<Seq<char>, (int, Seq<char>)> {
    match percent_decode(s, 0) {
        Ok(bytes) => if valid_utf8(bytes) {
            Ok(decode_utf8(bytes))
        } else {
            Err((2, Seq::empty()))
        },
        Err(e) => Err(e),
    }
}

/// The pieces of `s` between the `&`s: after the first `n` characters, the
/// pieces finished so far and the one being read.
pub open spec fn pieces_upto(s: Seq<char>, n: nat) -> (Seq<Seq<char>>, Seq<char>)
    decreases n,
{
    if n == 0 {
        (Seq::empty(), Seq::empty())
    } else {
        let (done, cur) = pieces_upto(s, (n - 1) as nat);
        if s[n - 1] == '&' {
            (done.push(cur), Seq::empty())
        } else {
            (done, cur.push(s[n - 1]))
        }
    }
}

/// The pieces of `s` between the `&`s, empty ones included.
pub open spec fn pieces(s: Seq<char>) -> Seq<Seq<char>> {
    let (done, cur) = pieces_upto(s, s.len());
    done.push(cur)
}

/// What one piece of a query string reads as: `name=value` with the value
/// decoded, or a bare name.
pub open spec fn piece_parameter(p: Seq<char>) -> Result<(bool, Seq<char>, Seq<char>), (int, Seq<char>)> {
    match split_first(p, '=') {
        Some((k, v)) => match uncoded(v) {
            Ok(t) => Ok((false, k, t)),
            Err(e) => Err(e),
        },
        None => Ok((true, p, Seq::empty())),
    }
}

/// Relies on `String::from_utf8`: it succeeds exactly on valid UTF-8, and
/// the string holds the characters those bytes encode.
#[verifier::external_body]
fn string_from_utf8(bytes: Vec<u8>) -> (r: Option<String>)
    ensures
        match r {
            Some(s) => valid_utf8(bytes@) && s@ == decode_utf8(bytes@),
            None => !valid_utf8(bytes@),
        },
{
    String::from_utf8(bytes).ok()
}

impl Query {
    pub closed spec fn params(&self) -> Seq<Parameter> {
        self.parameters@
    }

    /// The value of the first `name=value` parameter named `search`.
    pub fn get_first_value(&self, search: &str) -> (r: Option<String>)
        ensures
            match r {
                Some(v) => exists|i: int|
                    0 <= i < self.params().len() && parameter_view(#[trigger] self.params()[i]) == (
                    false,
                    search@,
                    v@,
                ) && forall|j: int|
                    0 <= j < i ==> !(parameter_view(#[trigger] self.params()[j]).0 == false
                        && parameter_view(self.params()[j]).1 == search@),
                None => forall|i: int|
                    0 <= i < self.params().len() ==> !(parameter_view(#[trigger] self.params()[i]).0
                        == false && parameter_view(self.params()[i]).1 == search@),
            },
    {
        let mut i: usize = 0;
        while i < self.parameters.len()
            invariant
                i <= self.parameters@.len(),
                forall|j: int|
                    0 <= j < i ==> !(parameter_view(#[trigger] self.parameters@[j]).0 == false
                        && parameter_view(self.parameters@[j]).1 == search@),
            decreases self.parameters@.len() - i,
        {
            match &self.parameters[i] {
                Parameter::Value(key, value) => {
                    if str_eq(key.as_str(), search) {
                        let v = value.clone();
                        assert(parameter_view(self.params()[i as int]) == (false, search@, v@));
                        assert(exists|m: int|
                            0 <= m < self.params().len() && parameter_view(#[trigger] self.params()[m]) == (
                            false,
                            search@,
                            v@,
                        ) && forall|j: int|
                            0 <= j < m ==> !(parameter_view(#[trigger] self.params()[j]).0 == false
                                && parameter_view(self.params()[j]).1 == search@));
                        return Some(v);
                    }
                },
                Parameter::Boolean(_) => {},
            }
            i = i + 1;
        }
        None
    }

    /// Whether a bare parameter named `search` is present.
    pub fn bool_present(&self, search: &str) -> (r: bool)
        ensures
            r == exists|i: int|
                0 <= i < self.params().len() && parameter_view(#[trigger] self.params()[i]).0
                    && parameter_view(self.params()[i]).1 == search@,
    {
        let mut i: usize = 0;
        while i < self.parameters.len()
            invariant
                i <= self.parameters@.len(),
                forall|j: int|
                    0 <= j < i ==> !(parameter_view(#[trigger] self.parameters@[j]).0
                        && parameter_view(self.parameters@[j]).1 == search@),
            decreases self.parameters@.len() - i,
        {
            match &self.parameters[i] {
                Parameter::Boolean(key) => {
                    if str_eq(key.as_str(), search) {
                        assert(parameter_view(self.params()[i as int]).0 && parameter_view(self.params()[i as int]).1 == search@);
                        return true;
                    }
                },
                Parameter::Value(_, _) => {},
            }
            i = i + 1;
        }
        false
    }

    /// Decodes a percent-encoded value: `%XY` is the byte `0xXY`, any other
    /// character stands for itself, and the bytes must be UTF-8.
    pub fn uncode_string(urlencoded: &str) -> (r: Result<String, QueryParseError>)
        ensures
            match r {
                Ok(s) => uncoded(urlencoded@) == Ok::<Seq<char>, (int, Seq<char>)>(s@),
                Err(e) => uncoded(urlencoded@) == Err::<Seq<char>, (int, Seq<char>)>(error_view(e)),
            },
    {
        let ghost s = urlencoded@;
        let n = urlencoded.unicode_len();
        let mut bytes: Vec<u8> = Vec::new();
        let mut i: usize = 0;
        while i < n
            invariant
                n == s.len(),
                s == urlencoded@,
                i <= n,
                percent_decode(s, 0) == match percent_decode(s, i as int) {
                    Ok(rest) => Ok(bytes@ + rest),
                    Err(e) => Err::<Seq<u8>, (int, Seq<char>)>(e),
                },
            decreases n - i,
        {
            let c = urlencoded.get_char(i);
            if c == '%' {
                if n - i > 2 {
                    let upper = urlencoded.get_char(i + 1);
                    let lower = urlencoded.get_char(i + 2);
                    match Self::from_hex(upper, lower) {
                        Ok(b) => {
                            let ghost before = bytes@;
                            bytes.push(b);
                            proof {
                                match percent_decode(s, i + 3) {
                                    Ok(rest) => {
                                        assert(before + (seq![b] + rest) =~= bytes@ + rest);
                                    },
                                    Err(_) => {},
                                }
                            }
                            i = i + 3;
                        },
                        Err(e) => {
                            return Err(e);
                        },
                    }
                } else if n - i > 1 {
                    let mut text = String::new();
                    push_char(&mut text, '%');
                    push_char(&mut text, urlencoded.get_char(i + 1));
                    assert(text@ =~= seq!['%', s[i + 1]]);
                    return Err(QueryParseError::IncompletePercent(text));
                } else {
                    let mut text = String::new();
                    push_char(&mut text, '%');
                    assert(text@ =~= seq!['%']);
                    return Err(QueryParseError::IncompletePercent(text));
                }
            } else {
                let one = urlencoded.substring_char(i, i + 1);
                assert(one@ =~= seq![c]);
                let encoded = one.as_bytes();
                let ghost before = bytes@;
                let mut k: usize = 0;
                while k < encoded.len()
                    invariant
                        k <= encoded@.len(),
                        bytes@ == before + encoded@.subrange(0, k as int),
                    decreases encoded@.len() - k,
                {
                    bytes.push(encoded[k]);
                    assert(encoded@.subrange(0, k + 1) =~= encoded@.subrange(0, k as int).push(encoded@[k as int]));
                    k = k + 1;
                }
                proof {
                    assert(encoded@.subrange(0, encoded@.len() as int) =~= encoded@);
                    match percent_decode(s, i + 1) {
                        Ok(rest) => {
                            assert(before + (encode_utf8(seq![c]) + rest) =~= bytes@ + rest);
                        },
                        Err(_) => {},
                    }
                }
                i = i + 1;
            }
        }
        assert(bytes@ + Seq::<u8>::empty() =~= bytes@);
        match string_from_utf8(bytes) {
            Some(text) => Ok(text),
            None => Err(QueryParseError::InvalidUtf8),
        }
    }

    /// The byte written by two hexadecimal digits.
    pub fn from_hex(upper: char, lower: char) -> (r: Result<u8, QueryParseError>)
        ensures
            match r {
                Ok(b) => escape_of(upper, lower) == Ok::<u8, (int, Seq<char>)>(b),
                Err(e) => escape_of(upper, lower) == Err::<u8, (int, Seq<char>)>(error_view(e)),
            },
    {
        match (hex_value_of(upper), hex_value_of(lower)) {
            (Some(u), Some(l)) => {
                proof {
                    assert(u < 16 && l < 16);
                }
                Ok(u * 16 + l)
            },
            _ => Err(QueryParseError::ImproperHex(upper)),
        }
    }

    /// Splits a query string at each `&` into parameters: `name=value`
    /// pieces (cut at their first `=`, the value percent-decoded) and bare
    /// names. Fails at the first value that cannot be decoded.
    pub fn parse(s: &str) -> (r: Result<Query, QueryParseError>)
        ensures
            match r {
                Ok(q) => {
                    &&& q.params().len() == pieces(s@).len()
                    &&& forall|k: int|
                        0 <= k < q.params().len() ==> piece_parameter(#[trigger] pieces(s@)[k])
                            == Ok::<(bool, Seq<char>, Seq<char>), (int, Seq<char>)>(
                            parameter_view(q.params()[k]),
                        )
                },
                Err(e) => exists|k: int|
                    0 <= k < pieces(s@).len() && piece_parameter(#[trigger] pieces(s@)[k]) == Err::<
                        (bool, Seq<char>, Seq<char>),
                        (int, Seq<char>),
                    >(error_view(e)) && forall|j: int|
                        0 <= j < k ==> (#[trigger] piece_parameter(pieces(s@)[j])) is Ok,
            },
    {
        let split = split_pieces(s);
        let mut parameters: Vec<Parameter> = Vec::new();
        let mut k: usize = 0;
        while k < split.len()
            invariant
                split@.len() == pieces(s@).len(),
                forall|j: int| 0 <= j < split@.len() ==> (#[trigger] split@[j])@ == pieces(s@)[j],
                k <= split@.len(),
                parameters@.len() == k,
                forall|j: int|
                    0 <= j < k ==> piece_parameter(#[trigger] pieces(s@)[j]) == Ok::<
                        (bool, Seq<char>, Seq<char>),
                        (int, Seq<char>),
                    >(parameter_view(parameters@[j])),
            decreases split@.len() - k,
        {
            let piece = split[k].as_str();
            assert(piece@ == pieces(s@)[k as int]);
            match crate::font::find_first(piece, '=') {
                Some(i) => {
                    proof {
                        let m = choose|m: int| crate::font::is_first(piece@, '=', m);
                        assert(m == i) by {
                            if m < i {
                                assert(piece@[m] != '=');
                            } else if i < m {
                                assert(piece@[i as int] != '=');
                            }
                        }
                    }
                    let n = piece.unicode_len();
                    let key = piece.substring_char(0, i);
                    let value = piece.substring_char(i + 1, n);
                    match Self::uncode_string(value) {
                        Ok(text) => {
                            parameters.push(Parameter::Value(key.to_owned(), text));
                        },
                        Err(e) => {
                            proof {
                                assert forall|j: int| 0 <= j < k implies (#[trigger] piece_parameter(
                                    pieces(s@)[j],
                                )) is Ok by {}
                            }
                            return Err(e);
                        },
                    }
                },
                None => {
                    assert(!exists|m: int| crate::font::is_first(piece@, '=', m));
                    parameters.push(Parameter::Boolean(piece.to_owned()));
                },
            }
            k = k + 1;
        }
        Ok(Query { parameters })
    }

    /// The parameters, in order.
    pub fn parameters(&self) -> (r: &Vec<Parameter>)
        ensures
            r@ == self.params(),
    {
        &self.parameters
    }
}

impl std::str::FromStr for Query {
    type Err = QueryParseError;

    fn from_str(s: &str) -> Result<Query, QueryParseError> {
        Query::parse(s)
    }
}

/// Splits `s` at each `&`.
fn split_pieces(s: &str) -> (r: Vec<String>)
    ensures
        r@.len() == pieces(s@).len(),
        forall|j: int| 0 <= j < r@.len() ==> (#[trigger] r@[j])@ == pieces(s@)[j],
{
    let n = s.unicode_len();
    let mut done: Vec<String> = Vec::new();
    let mut cur = String::new();
    let mut i: usize = 0;
    while i < n
        invariant
            n == s@.len(),
            i <= n,
            done@.len() == pieces_upto(s@, i as nat).0.len(),
            forall|j: int| 0 <= j < done@.len() ==> (#[trigger] done@[j])@ == pieces_upto(s@, i as nat).0[j],
            cur@ == pieces_upto(s@, i as nat).1,
        decreases n - i,
    {
        let c = s.get_char(i);
        if c == '&' {
            let finished = cur;
            done.push(finished);
            cur = String::new();
        } else {
            push_char(&mut cur, c);
        }
        i = i + 1;
    }
    done.push(cur);
    done
}

} // verus!

//! Settings that come from the environment of the program.

use vstd::prelude::*;
use vstd::string::StringExecFns;

use crate::text::to_chars;

verus! {

/// The size limit of a request where none is set: one gibibyte.
pub const DEFAULT_REQUEST_SIZE: u32 = 1073741824;

/// Whether `c` is a decimal digit.
pub open spec fn is_digit(c: char) -> bool {
    '0' <= c <= '9'
}

/// Whether `s` is one decimal digit or more.
pub open spec fn all_digits(s: Seq<char>) -> bool {
    s.len() > 0 && forall|i: int| 0 <= i < s.len() ==> is_digit(#[trigger] s[i])
}

/// The value of a sequence of decimal digits.
pub open spec fn digits_value(s: Seq<char>) -> int
    decreases s.len(),
{
    if s.len() == 0 {
        0
    } else {
        10 * digits_value(s.drop_last()) + (s.last() as int - '0' as int)
    }
}

/// The unsigned number that `s` writes, with an optional `+`, where it is at most
/// `limit`.
pub open spec fn unsigned_number(s: Seq<char>, limit: int) -> Option<int> {
    let digits = if s.len() > 0 && s[0] == '+' { s.skip(1) } else { s };
    if all_digits(digits) && digits_value(digits) <= limit {
        Some(digits_value(digits))
    } else {
        None
    }
}

/// The signed number of 32 bits that `s` writes, with an optional sign.
pub open spec fn signed_number(s: Seq<char>) -> Option<int> {
    if s.len() > 0 && s[0] == '-' {
        let digits = s.skip(1);
        if all_digits(digits) && digits_value(digits) <= 0x8000_0000 {
            Some(-digits_value(digits))
        } else {
            None
        }
    } else {
        unsigned_number(s, 0x7fff_ffff)
    }
}

proof fn lemma_digits_grow(s: Seq<char>, n: int)
    requires
        0 <= n <= s.len(),
        all_digits(s),
    ensures
        0 <= digits_value(s.take(n)) <= digits_value(s),
    decreases s.len() - n, s.len(),
{
    if n == s.len() {
        assert(s.take(n) =~= s);
        if s.len() > 1 {
            lemma_digits_grow(s.drop_last(), s.len() - 1);
            assert(s.drop_last().take(s.len() - 1) =~= s.drop_last());
        } else {
            assert(digits_value(s.drop_last()) == 0);
        }
        assert(is_digit(s[s.len() - 1]));
    } else {
        lemma_digits_grow(s, n + 1);
        assert(s.take(n + 1).drop_last() =~= s.take(n));
        assert(is_digit(s[n]));
        if n > 0 {
            lemma_digits_grow(s.take(n), n);
            assert(s.take(n).take(n) =~= s.take(n));
        } else {
            assert(digits_value(s.take(n)) == 0);
        }
    }
}

/// The value of the digits `chars[from..]`, where it is at most `limit`.
fn parse_digits(chars: &Vec<char>, from: usize, limit: u64) -> (r: Option<u64>)
    requires
        from <= chars@.len(),
    ensures
        ({
            let digits = chars@.skip(from as int);
            match r {
                Some(v) => all_digits(digits) && v == digits_value(digits) && v <= limit,
                None => !all_digits(digits) || digits_value(digits) > limit,
            }
        }),
{
    let ghost digits = chars@.skip(from as int);
    if from == chars.len() {
        return None;
    }
    let mut value: u64 = 0;
    let mut i: usize = from;
    assert(digits.take(0) =~= Seq::empty());
    while i < chars.len()
        invariant
            from <= i <= chars@.len(),
            digits == chars@.skip(from as int),
            forall|j: int| 0 <= j < i - from ==> is_digit(#[trigger] digits[j]),
            value == digits_value(digits.take(i - from)),
            value <= limit,
        decreases chars@.len() - i,
    {
        let c = chars[i];
        assert(digits[i - from] == c);
        if c < '0' || '9' < c {
            assert(!all_digits(digits));
            return None;
        }
        assert(digits.take(i - from + 1).drop_last() =~= digits.take(i - from));
        let next: u128 = value as u128 * 10 + (c as u32 - '0' as u32) as u128;
        if next > limit as u128 {
            proof {
                if all_digits(digits) {
                    lemma_digits_grow(digits, i - from + 1);
                }
            }
            return None;
        }
        value = next as u64;
        i = i + 1;
    }
    assert(digits.take(i - from) =~= digits);
    Some(value)
}

/// The unsigned number that `text` writes, where it is at most `limit`.
pub fn parse_unsigned(text: &str, limit: u64) -> (r: Option<u64>)
    ensures
        match r {
            Some(v) => unsigned_number(text@, limit as int) == Some(v as int),
            None => unsigned_number(text@, limit as int) is None,
        },
{
    let chars = to_chars(text);
    let from: usize = if chars.len() > 0 && chars[0] == '+' { 1 } else { 0 };
    assert(chars@.skip(0) =~= chars@);
    parse_digits(&chars, from, limit)
}

/// The size limit of the body of a chat request, in bytes: the one that is set, where
/// it is a number, else one gibibyte.
pub open spec fn request_size(setting: Option<Seq<char>>) -> int {
    match setting {
        Some(text) => match unsigned_number(text, usize::MAX as int) {
            Some(n) => n,
            None => DEFAULT_REQUEST_SIZE as int,
        },
        None => DEFAULT_REQUEST_SIZE as int,
    }
}

/// The size limit of the body of a chat request, from the setting for it.
pub fn max_request_size(setting: Option<&str>) -> (r: usize)
    ensures
        r == request_size(
            match setting {
                Some(text) => Some(text@),
                None => None,
            },
        ),
{
    match setting {
        Some(text) => match parse_unsigned(text, usize::MAX as u64) {
            Some(n) => n as usize,
            None => DEFAULT_REQUEST_SIZE as usize,
        },
        None => DEFAULT_REQUEST_SIZE as usize,
    }
}

/// The size limit that the server puts on every request: the one that is set, where
/// it is a number of 31 bits, else one gibibyte. A negative setting has none.
pub fn server_request_size(setting: &str) -> (r: Option<u64>)
    ensures
        match signed_number(setting@) {
            Some(n) => if n < 0 {
                r is None
            } else {
                r == Some(n as u64)
            },
            None => r == Some(DEFAULT_REQUEST_SIZE as u64),
        },
{
    let chars = to_chars(setting);
    if chars.len() > 0 && chars[0] == '-' {
        match parse_digits(&chars, 1, 0x8000_0000) {
            Some(n) => if n == 0 {
                Some(0)
            } else {
                None
            },
            None => Some(DEFAULT_REQUEST_SIZE as u64),
        }
    } else {
        match parse_unsigned(setting, 0x7fff_ffff) {
            Some(n) => Some(n),
            None => Some(DEFAULT_REQUEST_SIZE as u64),
        }
    }
}

/// The value of an environment variable, or `default` where it is not set.
pub fn get_env_or_default(value: Option<String>, default: &str) -> (r: String)
    ensures
        r@ == (match value {
            Some(v) => v@,
            None => default@,
        }),
{
    match value {
        Some(v) => v,
        None => default.to_string(),
    }
}

/// The address that the server listens on.
pub fn bind_address(host: &str, port: &str) -> (r: String)
    ensures
        r@ == host@.push(':') + port@,
{
    let mut out = host.to_string();
    out.push(':');
    out.append(port);
    out
}

/// The path that `name` has in the directory `dir`. An absolute name stands for
/// itself.
pub open spec fn joined_path(dir: Seq<char>, name: Seq<char>) -> Seq<char> {
    if name.len() > 0 && name[0] == '/' {
        name
    } else if dir.len() > 0 && dir.last() != '/' {
        dir.push('/') + name
    } else {
        dir + name
    }
}

/// The path of the configuration file `filename`: in the directory that is set for
/// configuration, else in the current one.
pub fn get_config_path(config_dir: Option<&str>, filename: &str) -> (r: String)
    ensures
        r@ == joined_path(
            match config_dir {
                Some(dir) => dir@,
                None => "./"@,
            },
            filename@,
        ),
{
    let dir = match config_dir {
        Some(dir) => dir,
        None => "./",
    };
    let name_chars = to_chars(filename);
    if name_chars.len() > 0 && name_chars[0] == '/' {
        return filename.to_string();
    }
    let dir_chars = to_chars(dir);
    let count: usize = dir_chars.len();
    let mut out = dir.to_string();
    if count > 0 && dir_chars[count - 1] != '/' {
        out.push('/');
    }
    out.append(filename);
    out
}

} // verus!

//! Command-line configuration: bind address and optional request limit.
//!
//! The acceptor hands in the raw argument strings; everything decided from
//! them (defaulting, number parsing) is verified here.

use vstd::prelude::*;
use vstd::string::StrSliceExecFns;
use vstd::string::StringExecFns;

verus! {

/// The bind address used when none is given.
pub open spec fn default_addr() -> Seq<char> {
    "127.0.0.1:7878"@
}

/// Whether `c` is an ASCII decimal digit.
pub open spec fn is_digit(c: char) -> bool {
    '0' <= c && c <= '9'
}

/// The numeric value of a digit character.
pub open spec fn digit_val(c: char) -> nat {
    ((c as int) - ('0' as int)) as nat
}

/// Whether every character of `s` is a decimal digit.
pub open spec fn all_digits(s: Seq<char>) -> bool {
    forall|i: int| 0 <= i < s.len() ==> is_digit(#[trigger] s[i])
}

/// The value of a digit string read in base ten.
pub open spec fn digits_val(s: Seq<char>) -> nat
    decreases s.len(),
{
    if s.len() == 0 {
        0
    } else {
        digits_val(s.drop_last()) * 10 + digit_val(s.last())
    }
}

/// What parsing an unsigned integer from `s` yields: an optional leading
/// `'+'`, then at least one digit, and a value that fits the word size;
/// anything else is a parse failure.
pub open spec fn spec_parse_usize(s: Seq<char>) -> Option<usize> {
    let digits = if s.len() > 0 && s[0] == '+' {
        s.drop_first()
    } else {
        s
    };
    if digits.len() > 0 && all_digits(digits) && digits_val(digits) <= usize::MAX {
        Some(digits_val(digits) as usize)
    } else {
        None
    }
}

/// A longer digit string never has a smaller value: the value of
/// `s.take(i)` is at most the value of `s.take(j)` for `i <= j`.
proof fn lemma_digits_val_monotone(s: Seq<char>, i: int, j: int)
    requires
        0 <= i <= j <= s.len(),
    ensures
        digits_val(s.take(i)) <= digits_val(s.take(j)),
    decreases j - i,
{
    if i < j {
        lemma_digits_val_monotone(s, i, j - 1);
        assert(s.take(j).drop_last() =~= s.take(j - 1));
        assert(digits_val(s.take(j)) == digits_val(s.take(j - 1)) * 10 + digit_val(
            s.take(j).last(),
        ));
    }
}

/// Parses the decimal digits of `s` starting at position `from`, with
/// std's unsigned-integer semantics: every remaining character must be a
/// digit, there must be at least one, and the value must fit.
fn parse_digits(s: &str, from: usize) -> (r: Option<usize>)
    requires
        from <= s@.len(),
    ensures
        ({
            let digits = s@.skip(from as int);
            r == (if digits.len() > 0 && all_digits(digits) && digits_val(digits) <= usize::MAX {
                Some(digits_val(digits) as usize)
            } else {
                None::<usize>
            })
        }),
{
    let ghost digits = s@.skip(from as int);
    let len = s.unicode_len();
    if from == len {
        return None;
    }
    let mut acc: usize = 0;
    let mut i: usize = from;
    while i < len
        invariant
            from <= i <= len,
            len == s@.len(),
            digits == s@.skip(from as int),
            all_digits(s@.subrange(from as int, i as int)),
            acc == digits_val(s@.subrange(from as int, i as int)),
        decreases len - i,
    {
        let c = s.get_char(i);
        if c < '0' || c > '9' {
            proof {
                assert(digits[i - from] == s@[i as int]);
                assert(!all_digits(digits));
            }
            return None;
        }
        let d: usize = (c as u32 as usize) - 48;
        proof {
            assert(d == digit_val(s@[i as int]));
        }
        let shifted = match acc.checked_mul(10) {
            Some(v) => v,
            None => {
                proof {
                    lemma_digits_overflow(s, from as int, i as int, d as nat);
                }
                return None;
            },
        };
        let next = match shifted.checked_add(d) {
            Some(v) => v,
            None => {
                proof {
                    lemma_digits_overflow(s, from as int, i as int, d as nat);
                }
                return None;
            },
        };
        acc = next;
        i = i + 1;
        proof {
            assert(s@.subrange(from as int, i as int).drop_last() =~= s@.subrange(
                from as int,
                i - 1,
            ));
        }
    }
    proof {
        assert(s@.subrange(from as int, len as int) =~= digits);
        assert(digits_val(digits) <= usize::MAX);
    }
    Some(acc)
}

/// If extending the digits scanned so far overflows the word size, the
/// value of the whole digit string overflows it too.
proof fn lemma_digits_overflow(s: &str, from: int, i: int, d: nat)
    requires
        0 <= from <= i < s@.len(),
        d == digit_val(s@[i]),
        digits_val(s@.subrange(from, i)) * 10 + d > usize::MAX,
    ensures
        digits_val(s@.skip(from)) > usize::MAX,
{
    let digits = s@.skip(from);
    assert(s@.subrange(from, i + 1).drop_last() =~= s@.subrange(from, i));
    assert(s@.subrange(from, i + 1).last() == s@[i]);
    assert(digits_val(s@.subrange(from, i + 1)) > usize::MAX);
    assert(s@.subrange(from, i + 1) =~= digits.take(i + 1 - from));
    lemma_digits_val_monotone(digits, i + 1 - from, digits.len() as int);
    assert(digits.take(digits.len() as int) =~= digits);
}

/// Parses an unsigned integer exactly as the standard library does: an
/// optional leading `'+'`, then one or more decimal digits whose value
/// fits the word size.
pub fn parse_usize(s: &str) -> (r: Option<usize>)
    ensures
        r == spec_parse_usize(s@),
{
    let len = s.unicode_len();
    if len > 0 && s.get_char(0) == '+' {
        proof {
            assert(s@.skip(1) =~= s@.drop_first());
        }
        parse_digits(s, 1)
    } else {
        proof {
            assert(s@.skip(0) =~= s@);
        }
        parse_digits(s, 0)
    }
}

/// The inputs the acceptor loop runs on: where to bind, and how many
/// connections to serve before shutting down (absent means: indefinitely).
pub struct Config {
    pub server_addr: String,
    pub requests_to_serve: Option<usize>,
}

impl Config {
    /// Reads the configuration from the argument strings (the first being
    /// the program name): the second argument is the bind address, with a
    /// default when absent; the third, when present and parseable, bounds
    /// how many connections are served.
    pub fn new(args: Vec<String>) -> (c: Config)
        ensures
            c.server_addr@ == (if args@.len() >= 2 {
                args@[1]@
            } else {
                default_addr()
            }),
            c.requests_to_serve == (if args@.len() >= 3 {
                spec_parse_usize(args@[2]@)
            } else {
                None::<usize>
            }),
    {
        let server_addr = if args.len() >= 2 {
            args[1].clone()
        } else {
            String::from_str("127.0.0.1:7878")
        };
        let requests_to_serve = if args.len() >= 3 {
            parse_usize(args[2].as_str())
        } else {
            None
        };
        Config { server_addr, requests_to_serve }
    }
}

} // verus!

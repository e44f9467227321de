//! The connection handler's response pipeline: template path building, the
//! degrade-to-empty policy for a missing template, and the bit-exact wire
//! format of a response, including the decimal `Content-Length` value.

use vstd::prelude::*;
use vstd::string::StringExecFns;
use vstd::string::StringSliceAdditionalSpecFns;

verus! {

/// The decimal digit character for `d < 10`.
pub open spec fn spec_digit(d: nat) -> char {
    if d == 0 {
        '0'
    } else if d == 1 {
        '1'
    } else if d == 2 {
        '2'
    } else if d == 3 {
        '3'
    } else if d == 4 {
        '4'
    } else if d == 5 {
        '5'
    } else if d == 6 {
        '6'
    } else if d == 7 {
        '7'
    } else if d == 8 {
        '8'
    } else {
        '9'
    }
}

/// The usual decimal rendering of `n`: no sign, no leading zero except for
/// `n == 0` itself.
pub open spec fn spec_decimal(n: nat) -> Seq<char>
    decreases n,
{
    if n < 10 {
        seq![spec_digit(n)]
    } else {
        spec_decimal(n / 10) + seq![spec_digit(n % 10)]
    }
}

/// The response wire format, bit-exact:
/// `"{status_line}\r\nContent-Length: {n}\r\n\r\n{body}"`,
/// where `n` is the byte length of the body.
pub open spec fn spec_response(status_line: Seq<char>, body: Seq<char>, n: nat) -> Seq<char> {
    status_line + "\r\nContent-Length: "@ + spec_decimal(n) + "\r\n\r\n"@ + body
}

/// The single-character string for a decimal digit.
fn digit_str(d: u8) -> (r: &'static str)
    requires
        d < 10,
    ensures
        r@ == seq![spec_digit(d as nat)],
{
    proof {
        reveal_strlit("0");
        reveal_strlit("1");
        reveal_strlit("2");
        reveal_strlit("3");
        reveal_strlit("4");
        reveal_strlit("5");
        reveal_strlit("6");
        reveal_strlit("7");
        reveal_strlit("8");
        reveal_strlit("9");
    }
    let r = if d == 0 {
        "0"
    } else if d == 1 {
        "1"
    } else if d == 2 {
        "2"
    } else if d == 3 {
        "3"
    } else if d == 4 {
        "4"
    } else if d == 5 {
        "5"
    } else if d == 6 {
        "6"
    } else if d == 7 {
        "7"
    } else if d == 8 {
        "8"
    } else {
        "9"
    };
    proof {
        assert(r@ =~= seq![spec_digit(d as nat)]);
    }
    r
}

/// Renders `n` in decimal.
pub fn usize_to_decimal(n: usize) -> (r: String)
    ensures
        r@ == spec_decimal(n as nat),
    decreases n,
{
    if n < 10 {
        digit_str(n as u8).to_owned()
    } else {
        let mut r = usize_to_decimal(n / 10);
        r.append(digit_str((n % 10) as u8));
        proof {
            assert(r@ =~= spec_decimal(n as nat));
        }
        r
    }
}

/// The renderer: turns a routed template name into the body the response
/// carries.
pub struct Renderer;

impl Renderer {
    /// The path a template is read from: `static/{template_name}`,
    /// resolved against the process working directory.
    pub fn template_path(template_name: &str) -> (r: String)
        ensures
            r@ == "static/"@ + template_name@,
    {
        let mut r = String::from_str("static/");
        r.append(template_name);
        r
    }

    /// The degrade policy for the template contents: a template that could
    /// be read is served as-is; any read failure substitutes the empty
    /// body (the routed status line is still honored).
    pub fn resolve_template(contents: Option<String>) -> (r: String)
        ensures
            match contents {
                Option::Some(s) => r@ == s@,
                Option::None => r@ == Seq::<char>::empty(),
            },
    {
        match contents {
            Option::Some(s) => s,
            Option::None => String::new(),
        }
    }

    /// Builds the full response for a status line and a body, bit-exact:
    /// the `Content-Length` value is the byte length of the body actually
    /// written, so a missing template still yields a well-formed
    /// zero-length body.
    pub fn build_response(status_line: &str, contents: &str) -> (r: String)
        requires
            contents.spec_bytes().len() <= usize::MAX,
        ensures
            r@ == spec_response(
                status_line@,
                contents@,
                contents.spec_bytes().len() as nat,
            ),
    {
        let n: usize = contents.len();
        let mut r = status_line.to_owned();
        r.append("\r\nContent-Length: ");
        let decimal = usize_to_decimal(n);
        r.append(decimal.as_str());
        r.append("\r\n\r\n");
        r.append(contents);
        proof {
            assert(r@ =~= spec_response(
                status_line@,
                contents@,
                contents.spec_bytes().len() as nat,
            ));
        }
        r
    }
}

} // verus!

//! Verified text utilities: decimal rendering of counters, blank-string
//! detection, and the exact diagnostic messages the orchestration run emits.

use vstd::prelude::*;
use vstd::string::StringExecFns;
use vstd::string::StrSliceExecFns;

verus! {

/// Decimal digit character for a value below ten.
pub open spec fn dec_digit(d: nat) -> char {
    if d == 0 {
        '0'
    } else if d == 1 {
        '1'
    } else if d == 2 {
        '2'
    } else if d == 3 {
        '3'
    } else if d == 4 {
        '4'
    } else if d == 5 {
        '5'
    } else if d == 6 {
        '6'
    } else if d == 7 {
        '7'
    } else if d == 8 {
        '8'
    } else {
        '9'
    }
}

/// The decimal rendering of a natural number, most significant digit first.
pub open spec fn dec_str(n: nat) -> Seq<char>
    decreases n,
{
    if n < 10 {
        seq![dec_digit(n)]
    } else {
        dec_str(n / 10) + seq![dec_digit(n % 10)]
    }
}

fn digit_str(d: u64) -> (r: &'static str)
    requires
        d < 10,
    ensures
        r@ == seq![dec_digit(d as nat)],
{
    proof {
        reveal_strlit("0");
        reveal_strlit("1");
        reveal_strlit("2");
        reveal_strlit("3");
        reveal_strlit("4");
        reveal_strlit("5");
        reveal_strlit("6");
        reveal_strlit("7");
        reveal_strlit("8");
        reveal_strlit("9");
    }
    let r: &'static str = if d == 0 {
        "0"
    } else if d == 1 {
        "1"
    } else if d == 2 {
        "2"
    } else if d == 3 {
        "3"
    } else if d == 4 {
        "4"
    } else if d == 5 {
        "5"
    } else if d == 6 {
        "6"
    } else if d == 7 {
        "7"
    } else if d == 8 {
        "8"
    } else {
        "9"
    };
    proof {
        assert(r@ =~= seq![dec_digit(d as nat)]);
    }
    r
}

/// Renders a counter in decimal, matching `dec_str`.
pub fn u64_decimal(n: u64) -> (s: String)
    ensures
        s@ == dec_str(n as nat),
    decreases n,
{
    if n < 10 {
        let mut s = String::new();
        s.append(digit_str(n));
        proof {
            assert(s@ =~= dec_str(n as nat));
        }
        s
    } else {
        let mut s = u64_decimal(n / 10);
        s.append(digit_str(n % 10));
        proof {
            assert(s@ =~= dec_str(n as nat));
        }
        s
    }
}

/// Whitespace as far as blank-field detection is concerned.
pub open spec fn is_space(c: char) -> bool {
    c == ' ' || c == '\t' || c == '\n' || c == '\r'
}

/// A string is blank when every character is whitespace; an empty string is blank.
pub open spec fn blank(s: Seq<char>) -> bool {
    forall|i: int| 0 <= i < s.len() ==> is_space(#[trigger] s[i])
}

/// Decides blankness of a configuration field.
pub fn is_blank(s: &str) -> (r: bool)
    ensures
        r == blank(s@),
{
    let len = s.unicode_len();
    let mut k: usize = 0;
    while k < len
        invariant
            k <= len,
            len == s@.len(),
            forall|i: int| 0 <= i < k ==> is_space(#[trigger] s@[i]),
        decreases len - k,
    {
        let c = s.get_char(k);
        if !(c == ' ' || c == '\t' || c == '\n' || c == '\r') {
            return false;
        }
        k += 1;
    }
    true
}

/// The singular or plural word for a number of attempts.
pub open spec fn attempt_word(n: nat) -> Seq<char> {
    if n == 1 {
        "attempt"@
    } else {
        "attempts"@
    }
}

/// Message for a server whose attempt budget is exhausted.
pub open spec fn exhausted_msg(name: Seq<char>, max: nat) -> Seq<char> {
    "Could not connect to server "@ + name + " after "@ + dec_str(max) + " "@ + attempt_word(max)
}

pub fn exhausted_message(name: &str, max: u32) -> (m: String)
    ensures
        m@ == exhausted_msg(name@, max as nat),
{
    let mut m = String::new();
    m.append("Could not connect to server ");
    m.append(name);
    m.append(" after ");
    let digits = u64_decimal(max as u64);
    m.append(digits.as_str());
    m.append(" ");
    if max == 1 {
        m.append("attempt");
    } else {
        m.append("attempts");
    }
    proof {
        assert(m@ =~= exhausted_msg(name@, max as nat));
    }
    m
}

/// Message for a health probe that returned a broken-server status.
pub open spec fn server_error_msg(name: Seq<char>, code: nat) -> Seq<char> {
    "Server "@ + name + " returned error status "@ + dec_str(code)
        + ", this indicates a server problem"@
}

pub fn server_error_message(name: &str, code: u16) -> (m: String)
    ensures
        m@ == server_error_msg(name@, code as nat),
{
    let mut m = String::new();
    m.append("Server ");
    m.append(name);
    m.append(" returned error status ");
    let digits = u64_decimal(code as u64);
    m.append(digits.as_str());
    m.append(", this indicates a server problem");
    proof {
        assert(m@ =~= server_error_msg(name@, code as nat));
    }
    m
}

/// Message for a fatal transport failure while probing a server.
pub open spec fn connect_error_msg(name: Seq<char>, url: Seq<char>, detail: Seq<char>) -> Seq<
    char,
> {
    "Could not connect to server "@ + name + " on url "@ + url + ": "@ + detail
}

pub fn connect_error_message(name: &str, url: &str, detail: &str) -> (m: String)
    ensures
        m@ == connect_error_msg(name@, url@, detail@),
{
    let mut m = String::new();
    m.append("Could not connect to server ");
    m.append(name);
    m.append(" on url ");
    m.append(url);
    m.append(": ");
    m.append(detail);
    proof {
        assert(m@ =~= connect_error_msg(name@, url@, detail@));
    }
    m
}

/// Message for a tier member whose declared dependency is not yet Ready.
pub open spec fn dependency_unmet_msg(name: Seq<char>, dep: Seq<char>) -> Seq<char> {
    "Server '"@ + name + "' depends on '"@ + dep + "' which is not ready"@
}

pub fn dependency_unmet_message(name: &str, dep: &str) -> (m: String)
    ensures
        m@ == dependency_unmet_msg(name@, dep@),
{
    let mut m = String::new();
    m.append("Server '");
    m.append(name);
    m.append("' depends on '");
    m.append(dep);
    m.append("' which is not ready");
    proof {
        assert(m@ =~= dependency_unmet_msg(name@, dep@));
    }
    m
}

/// Aggregate message when several servers of one tier failed to start.
pub open spec fn aggregate_msg(count: nat) -> Seq<char> {
    dec_str(count) + " servers failed to start"@
}

pub fn aggregate_message(count: u64) -> (m: String)
    ensures
        m@ == aggregate_msg(count as nat),
{
    let mut m = u64_decimal(count);
    m.append(" servers failed to start");
    proof {
        assert(m@ =~= aggregate_msg(count as nat));
    }
    m
}

/// Message when a recorded process could not be terminated at shutdown.
pub open spec fn stop_failed_msg(name: Seq<char>) -> Seq<char> {
    "Failed to stop process "@ + name
}

pub fn stop_failed_message(name: &str) -> (m: String)
    ensures
        m@ == stop_failed_msg(name@),
{
    let mut m = String::new();
    m.append("Failed to stop process ");
    m.append(name);
    proof {
        assert(m@ =~= stop_failed_msg(name@));
    }
    m
}

} // verus!

//! The run invoker's computed strings: the exact argument list one
//! load-generation run is started with — thread-count hint, connection count,
//! suffixed duration, and the target URL assembled from host, port and the
//! scenario's query suffix.

use vstd::prelude::*;
use vstd::string::StringExecFns;

use crate::sweep::RunSpec;

verus! {

/// The decimal digit character for one digit value.
pub open spec fn dec_digit(d: int) -> char {
    if d == 0 {
        '0'
    } else if d == 1 {
        '1'
    } else if d == 2 {
        '2'
    } else if d == 3 {
        '3'
    } else if d == 4 {
        '4'
    } else if d == 5 {
        '5'
    } else if d == 6 {
        '6'
    } else if d == 7 {
        '7'
    } else if d == 8 {
        '8'
    } else {
        '9'
    }
}

/// The decimal numeral of a non-negative number, most significant digit
/// first, without leading zeros (zero itself is the single digit 0).
pub open spec fn dec_chars(n: int) -> Seq<char>
    decreases n,
{
    if n < 10 {
        seq![dec_digit(n)]
    } else {
        dec_chars(n / 10).push(dec_digit(n % 10))
    }
}

fn push_digit(s: &mut String, d: u8)
    requires
        d < 10,
    ensures
        final(s)@ == old(s)@.push(dec_digit(d as int)),
{
    if d == 0 {
        proof {
            reveal_strlit("0");
        }
        s.append("0");
        proof {
            assert(s@ =~= old(s)@.push('0'));
        }
    } else if d == 1 {
        proof {
            reveal_strlit("1");
        }
        s.append("1");
        proof {
            assert(s@ =~= old(s)@.push('1'));
        }
    } else if d == 2 {
        proof {
            reveal_strlit("2");
        }
        s.append("2");
        proof {
            assert(s@ =~= old(s)@.push('2'));
        }
    } else if d == 3 {
        proof {
            reveal_strlit("3");
        }
        s.append("3");
        proof {
            assert(s@ =~= old(s)@.push('3'));
        }
    } else if d == 4 {
        proof {
            reveal_strlit("4");
        }
        s.append("4");
        proof {
            assert(s@ =~= old(s)@.push('4'));
        }
    } else if d == 5 {
        proof {
            reveal_strlit("5");
        }
        s.append("5");
        proof {
            assert(s@ =~= old(s)@.push('5'));
        }
    } else if d == 6 {
        proof {
            reveal_strlit("6");
        }
        s.append("6");
        proof {
            assert(s@ =~= old(s)@.push('6'));
        }
    } else if d == 7 {
        proof {
            reveal_strlit("7");
        }
        s.append("7");
        proof {
            assert(s@ =~= old(s)@.push('7'));
        }
    } else if d == 8 {
        proof {
            reveal_strlit("8");
        }
        s.append("8");
        proof {
            assert(s@ =~= old(s)@.push('8'));
        }
    } else {
        proof {
            reveal_strlit("9");
        }
        s.append("9");
        proof {
            assert(s@ =~= old(s)@.push('9'));
        }
    }
}

/// The decimal numeral of `n` as a string.
pub fn dec_string(n: u64) -> (s: String)
    ensures
        s@ == dec_chars(n as int),
    decreases n,
{
    if n < 10 {
        let mut s = String::new();
        push_digit(&mut s, n as u8);
        proof {
            assert(s@ =~= seq![dec_digit(n as int)]);
        }
        s
    } else {
        let mut s = dec_string(n / 10);
        push_digit(&mut s, (n % 10) as u8);
        s
    }
}

/// The target URL of one run: scheme, host, the backend's port, the endpoint
/// path, and the scenario's query suffix.
pub fn run_url(spec: &RunSpec, host: &String) -> (url: String)
    ensures
        url@ == "http://"@ + host@ + ":"@ + dec_chars(spec.port as int) + "/tasks"@ + spec.test@,
{
    let mut url = String::from_str("http://");
    url.append(host.as_str());
    url.append(":");
    let port = dec_string(spec.port as u64);
    url.append(port.as_str());
    url.append("/tasks");
    url.append(spec.test.as_str());
    url
}

/// The argument list of one load-generation run, in order: thread-count
/// hint, concurrency, duration with its seconds suffix, and the target URL.
pub fn wrk_args(spec: &RunSpec, host: &String) -> (args: Vec<String>)
    ensures
        args@.len() == 4,
        args@[0]@ == "-t "@ + dec_chars(spec.threads as int),
        args@[1]@ == "-c "@ + dec_chars(spec.concurrency as int),
        args@[2]@ == "-d"@ + dec_chars(spec.duration as int) + "s"@,
        args@[3]@ == "http://"@ + host@ + ":"@ + dec_chars(spec.port as int) + "/tasks"@
            + spec.test@,
{
    let mut threads = String::from_str("-t ");
    let t = dec_string(spec.threads as u64);
    threads.append(t.as_str());

    let mut conns = String::from_str("-c ");
    let c = dec_string(spec.concurrency as u64);
    conns.append(c.as_str());

    let mut duration = String::from_str("-d");
    let d = dec_string(spec.duration as u64);
    duration.append(d.as_str());
    duration.append("s");

    let url = run_url(spec, host);

    let mut args: Vec<String> = Vec::new();
    args.push(threads);
    args.push(conns);
    args.push(duration);
    args.push(url);
    args
}

} // verus!

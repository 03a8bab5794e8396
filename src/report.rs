use vstd::prelude::*;

verus! {

/// The character of a decimal digit.
pub open spec fn digit_char(d: nat) -> char {
    seq!['0', '1', '2', '3', '4', '5', '6', '7', '8', '9'][d as int]
}

/// The decimal notation of `n`, without leading zeros.
pub open spec fn decimal(n: nat) -> Seq<char>
    decreases n,
{
    if n < 10 {
        seq![digit_char(n)]
    } else {
        decimal(n / 10).push(digit_char(n % 10))
    }
}

/// The line that a worker writes for a job it performs.
pub open spec fn work_report_text(
    worker: nat,
    producer: nat,
    epoch: Seq<char>,
    payload: Seq<char>,
) -> Seq<char> {
    "worker-"@ + decimal(worker) + " is being asked by client-"@ + decimal(producer)
        + " at epoch '"@ + epoch + "' to work '"@ + payload + "'"@
}

/// The line that a worker writes when it stops.
pub open spec fn finish_report_text(worker: nat) -> Seq<char> {
    "Finishing worker-"@ + decimal(worker)
}

fn digit_str(d: usize) -> (s: &'static str)
    requires
        d < 10,
    ensures
        s@ == seq![digit_char(d as nat)],
{
    match d {
        0 => {
            proof {
                reveal_strlit("0");
            }
            "0"
        },
        1 => {
            proof {
                reveal_strlit("1");
            }
            "1"
        },
        2 => {
            proof {
                reveal_strlit("2");
            }
            "2"
        },
        3 => {
            proof {
                reveal_strlit("3");
            }
            "3"
        },
        4 => {
            proof {
                reveal_strlit("4");
            }
            "4"
        },
        5 => {
            proof {
                reveal_strlit("5");
            }
            "5"
        },
        6 => {
            proof {
                reveal_strlit("6");
            }
            "6"
        },
        7 => {
            proof {
                reveal_strlit("7");
            }
            "7"
        },
        8 => {
            proof {
                reveal_strlit("8");
            }
            "8"
        },
        _ => {
            proof {
                reveal_strlit("9");
            }
            "9"
        },
    }
}

/// Writes `n` in decimal.
pub fn decimal_text(n: usize) -> (s: String)
    ensures
        s@ == decimal(n as nat),
    decreases n,
{
    if n < 10 {
        String::from_str(digit_str(n))
    } else {
        let mut s = decimal_text(n / 10);
        s.append(digit_str(n % 10));
        s
    }
}

/// The report of a job: which worker performs it, for which producer, at
/// which epoch, and what the job is.
pub fn work_report(worker: usize, producer: usize, epoch: &str, payload: &str) -> (line: String)
    ensures
        line@ == work_report_text(worker as nat, producer as nat, epoch@, payload@),
{
    let w = decimal_text(worker);
    let p = decimal_text(producer);
    let mut line = String::from_str("worker-");
    line.append(w.as_str());
    line.append(" is being asked by client-");
    line.append(p.as_str());
    line.append(" at epoch '");
    line.append(epoch);
    line.append("' to work '");
    line.append(payload);
    line.append("'");
    line
}

/// The line that a worker writes when it leaves its loop.
pub fn finish_report(worker: usize) -> (line: String)
    ensures
        line@ == finish_report_text(worker as nat),
{
    let w = decimal_text(worker);
    let mut line = String::from_str("Finishing worker-");
    line.append(w.as_str());
    line
}

} // verus!

//! Counters of what the messenger did, and their rendering for a metrics
//! scraper.

use vstd::prelude::*;

verus! {

/// The four counters.
#[derive(Debug, Clone, Copy, PartialEq, Eq, Structural)]
pub struct Metrics {
    pub sent_messages: u64,
    pub delivered_messages: u64,
    pub failed_messages: u64,
    pub received_messages: u64,
}

/// The character that stands for a digit.
pub open spec fn digit_char(d: nat) -> char {
    if d == 0 {
        '0'
    } else if d == 1 {
        '1'
    } else if d == 2 {
        '2'
    } else if d == 3 {
        '3'
    } else if d == 4 {
        '4'
    } else if d == 5 {
        '5'
    } else if d == 6 {
        '6'
    } else if d == 7 {
        '7'
    } else if d == 8 {
        '8'
    } else {
        '9'
    }
}

/// A number written in decimal, without leading zeros.
pub open spec fn decimal_text(n: nat) -> Seq<char>
    decreases n,
{
    if n < 10 {
        seq![digit_char(n)]
    } else {
        decimal_text(n / 10).push(digit_char(n % 10))
    }
}

/// The lines that describe one counter and give its value.
pub open spec fn counter_text(help: Seq<char>, kind: Seq<char>, name: Seq<char>, value: u64) -> Seq<
    char,
> {
    help + kind + name + decimal_text(value as nat) + seq!['\n']
}

/// The rendering of the four counters.
pub open spec fn metrics_text(m: Metrics) -> Seq<char> {
    counter_text(
        "# HELP pigeon_sent_messages Total messages attempted to send\n"@,
        "# TYPE pigeon_sent_messages counter\n"@,
        "pigeon_sent_messages "@,
        m.sent_messages,
    ) + counter_text(
        "# HELP pigeon_delivered_messages Total messages acknowledged as delivered\n"@,
        "# TYPE pigeon_delivered_messages counter\n"@,
        "pigeon_delivered_messages "@,
        m.delivered_messages,
    ) + counter_text(
        "# HELP pigeon_failed_messages Total send failures\n"@,
        "# TYPE pigeon_failed_messages counter\n"@,
        "pigeon_failed_messages "@,
        m.failed_messages,
    ) + counter_text(
        "# HELP pigeon_received_messages Total messages received\n"@,
        "# TYPE pigeon_received_messages counter\n"@,
        "pigeon_received_messages "@,
        m.received_messages,
    )
}

/// The text of one digit.
fn digit_text(d: u64) -> (text: &'static str)
    requires
        d < 10,
    ensures
        text@ == seq![digit_char(d as nat)],
{
    proof {
        reveal_strlit("0");
        reveal_strlit("1");
        reveal_strlit("2");
        reveal_strlit("3");
        reveal_strlit("4");
        reveal_strlit("5");
        reveal_strlit("6");
        reveal_strlit("7");
        reveal_strlit("8");
        reveal_strlit("9");
    }
    let text = if d == 0 {
        "0"
    } else if d == 1 {
        "1"
    } else if d == 2 {
        "2"
    } else if d == 3 {
        "3"
    } else if d == 4 {
        "4"
    } else if d == 5 {
        "5"
    } else if d == 6 {
        "6"
    } else if d == 7 {
        "7"
    } else if d == 8 {
        "8"
    } else {
        "9"
    };
    proof {
        assert(text@ =~= seq![digit_char(d as nat)]);
    }
    text
}

/// Appends `n` in decimal.
pub fn append_decimal(out: &mut String, n: u64)
    ensures
        final(out)@ == old(out)@ + decimal_text(n as nat),
    decreases n,
{
    if n >= 10 {
        append_decimal(out, n / 10);
    }
    let ghost before = out@;
    out.append(digit_text(n % 10));
    proof {
        if n >= 10 {
            assert(out@ =~= old(out)@ + decimal_text(n as nat));
        } else {
            assert(out@ =~= old(out)@ + decimal_text(n as nat));
        }
    }
}

/// Appends the lines of one counter.
fn append_counter(out: &mut String, help: &str, kind: &str, name: &str, value: u64)
    ensures
        final(out)@ == old(out)@ + counter_text(help@, kind@, name@, value),
{
    out.append(help);
    out.append(kind);
    out.append(name);
    append_decimal(out, value);
    out.append("\n");
    proof {
        reveal_strlit("\n");
        assert("\n"@ =~= seq!['\n']);
        assert(out@ =~= old(out)@ + counter_text(help@, kind@, name@, value));
    }
}

impl Metrics {
    /// All counters at zero.
    pub fn new() -> (m: Metrics)
        ensures
            m == (Metrics {
                sent_messages: 0,
                delivered_messages: 0,
                failed_messages: 0,
                received_messages: 0,
            }),
    {
        Metrics {
            sent_messages: 0,
            delivered_messages: 0,
            failed_messages: 0,
            received_messages: 0,
        }
    }

    /// The counters in the text format of Prometheus: for each counter a help
    /// line, a type line and a line with its name and value.
    pub fn render_prometheus(&self) -> (out: String)
        ensures
            out@ == metrics_text(*self),
    {
        let mut out = String::new();
        append_counter(
            &mut out,
            "# HELP pigeon_sent_messages Total messages attempted to send\n",
            "# TYPE pigeon_sent_messages counter\n",
            "pigeon_sent_messages ",
            self.sent_messages,
        );
        append_counter(
            &mut out,
            "# HELP pigeon_delivered_messages Total messages acknowledged as delivered\n",
            "# TYPE pigeon_delivered_messages counter\n",
            "pigeon_delivered_messages ",
            self.delivered_messages,
        );
        append_counter(
            &mut out,
            "# HELP pigeon_failed_messages Total send failures\n",
            "# TYPE pigeon_failed_messages counter\n",
            "pigeon_failed_messages ",
            self.failed_messages,
        );
        append_counter(
            &mut out,
            "# HELP pigeon_received_messages Total messages received\n",
            "# TYPE pigeon_received_messages counter\n",
            "pigeon_received_messages ",
            self.received_messages,
        );
        proof {
            assert(out@ =~= metrics_text(*self));
        }
        out
    }
}

impl Default for Metrics {
    fn default() -> (m: Metrics)
        ensures
            m == (Metrics {
                sent_messages: 0,
                delivered_messages: 0,
                failed_messages: 0,
                received_messages: 0,
            }),
    {
        Metrics::new()
    }
}

} // verus!

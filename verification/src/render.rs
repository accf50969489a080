//! Rendering transcript events as diagnostic lines.
//!
//! The diagnostic stream is plain text with bracketed status tags: a
//! header naming how many checks will run, one start line per check, an
//! OK marker per passing check, an abort line with failure details, and a
//! final success line. The application sends each rendered line, followed
//! by a line break, over the diagnostic channel.

use vstd::prelude::*;
use vstd::string::StringExecFns;

use crate::harness::EventModel;
use crate::harness::HarnessEvent;

verus! {

/// The decimal digit character for a value below ten.
pub open spec fn digit_char(d: int) -> char {
    if d == 0 {
        '0'
    } else if d == 1 {
        '1'
    } else if d == 2 {
        '2'
    } else if d == 3 {
        '3'
    } else if d == 4 {
        '4'
    } else if d == 5 {
        '5'
    } else if d == 6 {
        '6'
    } else if d == 7 {
        '7'
    } else if d == 8 {
        '8'
    } else {
        '9'
    }
}

/// The decimal rendering of a non-negative number, most significant digit
/// first, with no leading zeros (except for zero itself).
pub open spec fn dec_digits(n: int) -> Seq<char>
    decreases n,
{
    if n < 10 {
        seq![digit_char(n)]
    } else {
        dec_digits(n / 10).push(digit_char(n % 10))
    }
}

/// The diagnostic line for one transcript entry.
pub open spec fn line_of(e: EventModel) -> Seq<char> {
    match e {
        EventModel::RunningCount(n) => "[      ]: Running "@ + dec_digits(n) + " Tests"@,
        EventModel::TestStarted(name) => "[ TEST ]: "@ + name,
        EventModel::TestOk => "[  OK  ]"@,
        EventModel::TestAborted(details) => "[ ABRT ]: "@ + details,
        EventModel::AllPassed => "[      ]: All Tests passed"@,
    }
}

/// The string holding one decimal digit.
fn digit_str(d: usize) -> (s: String)
    requires
        d < 10,
    ensures
        s@ == seq![digit_char(d as int)],
{
    let s = if d == 0 {
        String::from_str("0")
    } else if d == 1 {
        String::from_str("1")
    } else if d == 2 {
        String::from_str("2")
    } else if d == 3 {
        String::from_str("3")
    } else if d == 4 {
        String::from_str("4")
    } else if d == 5 {
        String::from_str("5")
    } else if d == 6 {
        String::from_str("6")
    } else if d == 7 {
        String::from_str("7")
    } else if d == 8 {
        String::from_str("8")
    } else {
        String::from_str("9")
    };
    proof {
        reveal_strlit("0");
        reveal_strlit("1");
        reveal_strlit("2");
        reveal_strlit("3");
        reveal_strlit("4");
        reveal_strlit("5");
        reveal_strlit("6");
        reveal_strlit("7");
        reveal_strlit("8");
        reveal_strlit("9");
        assert(s@ =~= seq![digit_char(d as int)]);
    }
    s
}

/// Renders a count in decimal.
pub fn render_count(n: usize) -> (s: String)
    ensures
        s@ == dec_digits(n as int),
    decreases n,
{
    if n < 10 {
        digit_str(n)
    } else {
        let mut s = render_count(n / 10);
        let last = digit_str(n % 10);
        s.append(last.as_str());
        proof {
            assert(s@ =~= dec_digits(n as int / 10).push(digit_char(n as int % 10)));
        }
        s
    }
}

/// Renders one transcript entry as its diagnostic line.
pub fn render_event(e: &HarnessEvent) -> (s: String)
    ensures
        s@ == line_of(e@),
{
    match e {
        HarnessEvent::RunningCount(n) => {
            let mut s = String::from_str("[      ]: Running ");
            let digits = render_count(*n);
            s.append(digits.as_str());
            s.append(" Tests");
            s
        },
        HarnessEvent::TestStarted(name) => {
            let mut s = String::from_str("[ TEST ]: ");
            s.append(name.as_str());
            s
        },
        HarnessEvent::TestOk => String::from_str("[  OK  ]"),
        HarnessEvent::TestAborted(details) => {
            let mut s = String::from_str("[ ABRT ]: ");
            s.append(details.as_str());
            s
        },
        HarnessEvent::AllPassed => String::from_str("[      ]: All Tests passed"),
    }
}

/// Renders a whole transcript, one line per entry, in order.
pub fn render_transcript(events: &Vec<HarnessEvent>) -> (lines: Vec<String>)
    ensures
        lines@.len() == events@.len(),
        forall|i: int|
            0 <= i < events@.len() ==> #[trigger] lines@[i]@ == line_of(events@[i]@),
{
    let mut lines: Vec<String> = Vec::new();
    let n = events.len();
    let mut i: usize = 0;
    while i < n
        invariant
            n == events@.len(),
            i <= n,
            lines@.len() == i,
            forall|j: int| 0 <= j < i ==> #[trigger] lines@[j]@ == line_of(events@[j]@),
        decreases n - i,
    {
        lines.push(render_event(&events[i]));
        i = i + 1;
    }
    lines
}

} // verus!

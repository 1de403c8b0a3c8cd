//! `aozora lint --watch`: what the watch loop does with each event from
//! the debounced change source, the pass banner, and the wall-clock
//! stamp. The loop itself, which blocks on the event source, runs in
//! the front end and asks these functions what to do.

use vstd::prelude::*;
use vstd::string::*;

use crate::stats::{plural, plural_spec};
use crate::text_fmt::{dec_digits, digit_chars, push_decimal, zero_pad};

verus! {

/// What the change source reported while the loop waited.
#[derive(Debug, Clone, Copy, PartialEq, Eq, Structural)]
pub enum WatchEvent {
    /// At least one change arrived.
    Changed,
    /// The debounce window passed with no change.
    Timeout,
    /// The change source is gone.
    Disconnected,
}

/// What the loop does next.
#[derive(Debug, Clone, Copy, PartialEq, Eq, Structural)]
pub enum WatchAction {
    /// Swallow the queued burst of changes and lint once.
    Rerun,
    /// Wait again (checking the stop flag first).
    Wait,
    /// Leave the loop.
    Exit,
}

/// The loop's answer to `event` when the stop flag was `stopped` before
/// the wait: a set stop flag always ends the loop; otherwise a change
/// re-runs, a timeout waits again, a lost source ends the loop.
pub open spec fn watch_action_spec(stopped: bool, event: WatchEvent) -> WatchAction {
    if stopped {
        WatchAction::Exit
    } else {
        match event {
            WatchEvent::Changed => WatchAction::Rerun,
            WatchEvent::Timeout => WatchAction::Wait,
            WatchEvent::Disconnected => WatchAction::Exit,
        }
    }
}

/// Decide the loop's next step.
pub fn watch_action(stopped: bool, event: WatchEvent) -> (a: WatchAction)
    ensures
        a == watch_action_spec(stopped, event),
{
    if stopped {
        return WatchAction::Exit;
    }
    match event {
        WatchEvent::Changed => WatchAction::Rerun,
        WatchEvent::Timeout => WatchAction::Wait,
        WatchEvent::Disconnected => WatchAction::Exit,
    }
}

/// The number of passes a run of the loop makes over `events`, from a
/// stop flag sampled as `stops[i]` before the `i`-th wait: it counts the
/// re-runs up to the first exit.
pub open spec fn passes(stops: Seq<bool>, events: Seq<WatchEvent>) -> nat
    decreases events.len(),
{
    if events.len() == 0 || stops.len() == 0 {
        0
    } else {
        match watch_action_spec(stops[0], events[0]) {
            WatchAction::Exit => 0,
            WatchAction::Rerun => 1 + passes(stops.drop_first(), events.drop_first()),
            WatchAction::Wait => passes(stops.drop_first(), events.drop_first()),
        }
    }
}

/// A loop whose stop flag is already set, or whose change source is
/// gone, makes no pass; a single queued change followed by the stop flag
/// makes exactly one.
pub proof fn law_watch_loop_passes(events: Seq<WatchEvent>)
    ensures
        passes(Seq::new(events.len(), |i: int| true), events) == 0,
        events.len() > 0 && events[0] == WatchEvent::Disconnected ==> passes(
            Seq::new(events.len(), |i: int| false),
            events,
        ) == 0,
        events.len() >= 2 && events[0] == WatchEvent::Changed ==> passes(
            seq![false, true],
            events.take(2),
        ) == 1,
{
    if events.len() >= 2 && events[0] == WatchEvent::Changed {
        let s = seq![false, true];
        let e = events.take(2);
        let s1 = s.drop_first();
        let e1 = e.drop_first();
        assert(s1 =~= seq![true]);
        assert(e1.len() == 1);
        assert(watch_action_spec(s1[0], e1[0]) == WatchAction::Exit);
        assert(passes(s1, e1) == 0);
        assert(e[0] == WatchEvent::Changed);
        assert(watch_action_spec(s[0], e[0]) == WatchAction::Rerun);
        assert(passes(s, e) == 1 + passes(s1, e1));
    }
}

/// `n` as two decimal digits, zero-padded (for `n < 100`).
pub open spec fn two_digits(n: nat) -> Seq<char> {
    zero_pad(dec_digits(n), 2)
}

/// The UTC time of day of `secs` seconds past the Unix epoch, as
/// `HH:MM:SS`.
pub open spec fn hms_spec(secs: nat) -> Seq<char> {
    let day = secs % 86400;
    two_digits(day / 3600) + ":"@ + two_digits((day % 3600) / 60) + ":"@ + two_digits(day % 60)
}

fn push_two_digits(out: &mut String, n: u64)
    requires
        n < 100,
    ensures
        final(out)@ == old(out)@ + two_digits(n as nat),
{
    if n < 10 {
        out.append("0");
        proof {
            reveal_strlit("0");
            reveal_with_fuel(dec_digits, 1);
        }
    }
    let ghost mid = out@;
    push_decimal(out, n);
    proof {
        reveal_with_fuel(dec_digits, 2);
        if n < 10 {
            assert(dec_digits(n as nat).len() == 1);
            assert(zero_pad(dec_digits(n as nat), 2) =~= seq!['0'] + dec_digits(n as nat));
        } else {
            assert(dec_digits(n as nat) =~= dec_digits((n / 10) as nat) + seq![
                digit_chars()[(n % 10) as int],
            ]);
            assert(dec_digits((n / 10) as nat).len() == 1);
            assert(zero_pad(dec_digits(n as nat), 2) =~= dec_digits(n as nat));
        }
        assert(out@ =~= old(out)@ + two_digits(n as nat));
    }
}

/// `HH:MM:SS` for `secs` seconds past the Unix epoch (UTC).
pub fn now_hms(secs: u64) -> (r: String)
    ensures
        r@ == hms_spec(secs as nat),
{
    let day = secs % 86400;
    let mut out = String::new();
    push_two_digits(&mut out, day / 3600);
    out.append(":");
    push_two_digits(&mut out, (day % 3600) / 60);
    out.append(":");
    push_two_digits(&mut out, day % 60);
    proof {
        reveal_strlit(":");
        assert(out@ =~= hms_spec(secs as nat));
    }
    out
}

/// The banner printed before each pass.
pub open spec fn banner_spec(stamp: Seq<char>, n: nat) -> Seq<char> {
    "["@ + stamp + "] アオゾラ watching "@ + dec_digits(n) + " path"@ + plural_spec(n)
        + " — Ctrl-C to exit"@
}

/// `[HH:MM:SS] アオゾラ watching {n} path{s} — Ctrl-C to exit`.
pub fn pass_banner(stamp: &str, n: usize) -> (r: String)
    ensures
        r@ == banner_spec(stamp@, n as nat),
{
    let mut out = String::from_str("[");
    out.append(stamp);
    out.append("] アオゾラ watching ");
    push_decimal(&mut out, n as u64);
    out.append(" path");
    out.append(plural(n));
    out.append(" — Ctrl-C to exit");
    proof {
        assert(out@ =~= banner_spec(stamp@, n as nat));
    }
    out
}

/// Refusal when `--watch` is given nothing to watch.
pub const NO_WATCH_PATHS: &'static str = "aozora lint: --watch needs at least one path to watch";

} // verus!

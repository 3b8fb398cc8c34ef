//! What the updater does between rounds: report the address for every
//! profile and wait, or stop with a message.

use vstd::prelude::*;
use crate::error::{message_text, UpdateError};
use crate::profile::Profile;
use crate::text::views_of;

verus! {

/// Seconds between the end of one round and the start of the next.
pub const SLEEP_SECONDS: u64 = 300;

/// What follows a round.
#[derive(Debug)]
pub enum Next {
    /// Print these lines, wait `sleep_seconds`, then start another round.
    Report { lines: Vec<String>, sleep_seconds: u64 },
    /// Stop for good, with this message.
    Abort(String),
}

/// The line that reports the address found.
pub open spec fn report_line(public_ip: Seq<char>) -> Seq<char> {
    "public IP = "@ + public_ip
}

/// Decides what follows a round. An address is reported once for each
/// profile, in the profiles' order, and the next round starts after the
/// fixed wait; a failed round stops the updater with the error's message.
pub fn after_round(profiles: &Vec<Profile>, round: &Result<String, UpdateError>) -> (next: Next)
    ensures
        match round {
            Ok(public_ip) => next matches Next::Report { lines, sleep_seconds }
                && sleep_seconds == SLEEP_SECONDS && views_of(lines@) == Seq::new(
                profiles@.len(),
                |i: int| report_line(public_ip@),
            ),
            Err(error) => next matches Next::Abort(text) && text@ == message_text(error@),
        },
{
    match round {
        Ok(public_ip) => {
            let mut lines: Vec<String> = Vec::new();
            let n: usize = profiles.len();
            let mut i: usize = 0;
            while i < n
                invariant
                    n == profiles@.len(),
                    i <= n,
                    views_of(lines@) == Seq::new(i as nat, |j: int| report_line(public_ip@)),
                decreases n - i,
            {
                let mut line = String::from_str("public IP = ");
                line.append(public_ip.as_str());
                let ghost before = views_of(lines@);
                lines.push(line);
                assert(views_of(lines@) == before.push(line@));
                assert(views_of(lines@) == Seq::new(
                    (i + 1) as nat,
                    |j: int| report_line(public_ip@),
                ));
                i = i + 1;
            }
            Next::Report { lines, sleep_seconds: SLEEP_SECONDS }
        },
        Err(error) => Next::Abort(error.message()),
    }
}

} // verus!

//! What a caller can set for all its requests.

use crate::redirect::DEFAULT_MAX_REDIRECTS;
use vstd::prelude::*;

verus! {

/// The `User-Agent` that goes out where the caller sets none.
pub const USER_AGENT: &'static str = "ureq/2.3.1";

/// The settings of an agent. Times are in milliseconds.
#[derive(Debug, Clone, Copy)]
pub struct Config {
    pub user_agent: &'static str,
    /// How many redirects are followed; none are followed at 0.
    pub max_redirects: u32,
    /// The most time that one attempt to connect may take.
    pub connect_timeout: Option<u64>,
    /// The most time that a whole call may take.
    pub timeout: Option<u64>,
}

impl Config {
    pub open spec fn default_spec() -> Config {
        Config {
            user_agent: USER_AGENT,
            max_redirects: DEFAULT_MAX_REDIRECTS,
            connect_timeout: None,
            timeout: None,
        }
    }

    pub fn new() -> (r: Config)
        ensures
            r == Config::default_spec(),
    {
        Config {
            user_agent: USER_AGENT,
            max_redirects: DEFAULT_MAX_REDIRECTS,
            connect_timeout: None,
            timeout: None,
        }
    }

    /// The time at which a call that starts at `now` has to be over.
    pub open spec fn deadline_spec(self, now: u64) -> Option<u64> {
        match self.timeout {
            None => None,
            Some(t) => Some(
                if now + t > u64::MAX {
                    u64::MAX
                } else {
                    (now + t) as u64
                },
            ),
        }
    }

    pub fn deadline(&self, now: u64) -> (r: Option<u64>)
        ensures
            r == self.deadline_spec(now),
    {
        match self.timeout {
            None => None,
            Some(t) => Some(now.saturating_add(t)),
        }
    }

    /// The timeout for an attempt to connect at `now`: the time that is left
    /// until `deadline`, but no more than `connect_timeout`.
    pub open spec fn connect_deadline_spec(self, deadline: Option<u64>, now: u64) -> Option<u64> {
        match self.connect_timeout {
            None => deadline,
            Some(t) => {
                let by = if now + t > u64::MAX {
                    u64::MAX
                } else {
                    (now + t) as u64
                };
                match deadline {
                    Some(d) if d <= by => Some(d),
                    _ => Some(by),
                }
            },
        }
    }

    /// The time at which an attempt to connect that starts at `now` has to
    /// be over.
    pub fn connect_deadline(&self, deadline: Option<u64>, now: u64) -> (r: Option<u64>)
        ensures
            r == self.connect_deadline_spec(deadline, now),
    {
        match self.connect_timeout {
            None => deadline,
            Some(t) => {
                let by = now.saturating_add(t);
                match deadline {
                    Some(d) => if d <= by {
                        Some(d)
                    } else {
                        Some(by)
                    },
                    None => Some(by),
                }
            },
        }
    }
}

} // verus!

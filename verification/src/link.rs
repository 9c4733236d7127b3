//! A client's connection to the server, which is made again when it is lost.

use vstd::prelude::*;

verus! {

/// How many frames to wait after the first attempt that failed.
pub const INITIAL_RECONNECT_DELAY: u32 = 10;

/// The most frames to wait after an attempt.
pub const MAX_RECONNECT_DELAY: u32 = 300;

/// The state of a connection.
#[derive(Clone, Copy, Debug, PartialEq, Eq, Structural)]
pub struct Link {
    /// Whether there is an address to connect to.
    pub has_url: bool,
    /// Whether the connection is taken to be up.
    pub connected: bool,
    /// Whether there is a connection at all, up or not.
    pub attached: bool,
    /// How many frames to wait until the next attempt.
    pub cooldown: u32,
    /// How many frames to wait after the next attempt that fails.
    pub delay: u32,
}

/// What to do about a connection.
#[derive(Clone, Copy, Debug, PartialEq, Eq, Structural)]
pub enum LinkAction {
    Nothing,
    Connect,
}

/// Twice a delay, up to the limit.
pub open spec fn longer(delay: u32) -> u32 {
    if 2 * delay <= MAX_RECONNECT_DELAY {
        (2 * delay) as u32
    } else {
        MAX_RECONNECT_DELAY
    }
}

impl Link {
    pub fn new() -> (res: Link)
        ensures
            res == (Link {
                has_url: false,
                connected: false,
                attached: false,
                cooldown: 0,
                delay: INITIAL_RECONNECT_DELAY,
            }),
    {
        Link {
            has_url: false,
            connected: false,
            attached: false,
            cooldown: 0,
            delay: INITIAL_RECONNECT_DELAY,
        }
    }

    /// What to do in a frame.
    pub open spec fn action(self) -> LinkAction {
        if !self.connected && !self.attached && self.has_url && self.cooldown == 0 {
            LinkAction::Connect
        } else {
            LinkAction::Nothing
        }
    }

    /// The connection a frame later. While it is down and there is a wait, that gets shorter.
    pub open spec fn polled(self) -> Link {
        if !self.connected && !self.attached && self.has_url && self.cooldown > 0 {
            Link { cooldown: (self.cooldown - 1) as u32, ..self }
        } else {
            self
        }
    }

    /// The connection after an attempt to make it again.
    pub open spec fn retried(self, ok: bool) -> Link {
        if ok {
            Link { has_url: true, connected: true, attached: true, ..self }
        } else {
            Link {
                has_url: true,
                connected: false,
                cooldown: self.delay,
                delay: longer(self.delay),
                ..self
            }
        }
    }

    /// Takes what came of an attempt to connect that was asked for from outside.
    pub fn connecting(&mut self, ok: bool)
        ensures
            *final(self) == (Link {
                has_url: true,
                connected: ok,
                attached: ok || old(self).attached,
                ..*old(self)
            }),
    {
        self.has_url = true;
        self.connected = ok;
        if ok {
            self.attached = true;
        }
    }

    /// The connection is up.
    pub fn opened(&mut self)
        ensures
            *final(self) == (Link {
                connected: true,
                cooldown: 0,
                delay: INITIAL_RECONNECT_DELAY,
                ..*old(self)
            }),
    {
        self.connected = true;
        self.delay = INITIAL_RECONNECT_DELAY;
        self.cooldown = 0;
    }

    /// The connection was lost.
    pub fn closed(&mut self)
        ensures
            *final(self) == (Link { connected: false, attached: false, ..*old(self) }),
    {
        self.connected = false;
        self.attached = false;
    }

    /// Goes on by a frame: what to do in it. While waiting, the wait gets shorter.
    pub fn poll(&mut self) -> (res: LinkAction)
        ensures
            res == old(self).action(),
            *final(self) == old(self).polled(),
    {
        if self.connected || self.attached || !self.has_url {
            return LinkAction::Nothing;
        }
        if self.cooldown > 0 {
            self.cooldown = self.cooldown - 1;
            LinkAction::Nothing
        } else {
            LinkAction::Connect
        }
    }

    /// Takes what came of an attempt to connect again. After each that fails the wait is longer.
    pub fn reconnecting(&mut self, ok: bool)
        ensures
            *final(self) == old(self).retried(ok),
    {
        self.connecting(ok);
        if !ok {
            self.cooldown = self.delay;
            self.delay = if self.delay <= MAX_RECONNECT_DELAY / 2 {
                self.delay * 2
            } else {
                MAX_RECONNECT_DELAY
            };
        }
    }
}

/// The waits between attempts grow up to the limit and no further.
pub proof fn waits_are_bounded(delay: u32)
    requires
        INITIAL_RECONNECT_DELAY <= delay <= MAX_RECONNECT_DELAY,
    ensures
        delay <= longer(delay) <= MAX_RECONNECT_DELAY,
        delay < longer(delay) || delay == MAX_RECONNECT_DELAY,
{
}

/// A connection after frames in which nothing came of it.
pub open spec fn polled_for(link: Link, frames: nat) -> Link
    decreases frames,
{
    if frames == 0 {
        link
    } else {
        polled_for(link, (frames - 1) as nat).polled()
    }
}

/// A connection that could not be made again is tried once more after as many frames as its delay
/// was, and not before. The delay after that is twice as long, but at most three hundred frames.
pub proof fn lost_connections_are_tried_again(link: Link, frames: nat)
    requires
        !link.attached,
        link.delay <= 300,
        frames <= link.delay,
    ensures
        polled_for(link.retried(false), frames).action() == (if frames < link.delay {
            LinkAction::Nothing
        } else {
            LinkAction::Connect
        }),
        link.retried(false).delay == vstd::math::min(2 * link.delay, 300),
{
    lemma_polled_for(link.retried(false), frames);
}

proof fn lemma_polled_for(link: Link, frames: nat)
    requires
        !link.connected && !link.attached && link.has_url,
        frames <= link.cooldown,
    ensures
        polled_for(link, frames) == (Link { cooldown: (link.cooldown - frames) as u32, ..link }),
    decreases frames,
{
    if frames > 0 {
        lemma_polled_for(link, (frames - 1) as nat);
    }
}

/// Nothing is tried, and no wait gets shorter, while the connection is up or being made, or as long
/// as it is not known where to. A wait that has run out stays so.
pub proof fn only_lost_connections_are_waited_for(link: Link)
    requires
        link.connected || link.attached || !link.has_url || link.cooldown == 0,
    ensures
        link.polled() == link,
        link.connected || link.attached || !link.has_url ==> link.action() == LinkAction::Nothing,
{
}

/// A connection that was made again is up, and is not made once more.
pub proof fn made_connections_are_kept(link: Link, frames: nat)
    ensures
        link.retried(true).connected && link.retried(true).attached && link.retried(true).has_url,
        polled_for(link.retried(true), frames) == link.retried(true),
        link.retried(true).action() == LinkAction::Nothing,
    decreases frames,
{
    if frames > 0 {
        made_connections_are_kept(link, (frames - 1) as nat);
    }
}

}

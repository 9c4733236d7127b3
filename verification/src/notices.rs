//! The notifications that a client has received.

use std::collections::VecDeque;

use vstd::prelude::*;

use crate::messages::{Notification, NotificationLevel, NotificationView};

verus! {

/// How many notifications are kept.
pub const MAX_NOTIFICATIONS: usize = 200;

/// For how many frames a notification is shown that is no error: ten seconds.
pub const NOTIFICATION_DISMISS_FRAMES: u64 = 100;

/// A notification, and the frame in which it came.
#[verifier::ext_equal]
pub struct NoticeView {
    pub notice: NotificationView,
    pub frame: u64,
}

/// The notifications of a session, the newest of them in a bar.
#[derive(Clone, Debug)]
pub struct NoticeLog {
    entries: VecDeque<(Notification, u64)>,
}

impl View for NoticeLog {
    type V = Seq<NoticeView>;

    closed spec fn view(&self) -> Seq<NoticeView> {
        self.entries@.map_values(|e: (Notification, u64)| NoticeView { notice: e.0@, frame: e.1 })
    }
}

/// The notifications with one more, as far as they are kept.
pub open spec fn with_notice(log: Seq<NoticeView>, notice: NoticeView) -> Seq<NoticeView> {
    if log.len() >= MAX_NOTIFICATIONS {
        log.push(notice).skip(1)
    } else {
        log.push(notice)
    }
}

/// Whether a notification is still shown: an error until it is replaced, others for a while.
pub open spec fn is_shown(entry: NoticeView, frame: u64) -> bool {
    entry.notice.level == NotificationLevel::Error || frame < entry.frame
        + NOTIFICATION_DISMISS_FRAMES
}

/// What the bar shows in a frame.
pub open spec fn bar(log: Seq<NoticeView>, frame: u64) -> Option<NotificationView> {
    if log.len() > 0 && is_shown(log.last(), frame) {
        Some(log.last().notice)
    } else {
        None
    }
}

impl NoticeLog {
    pub fn new() -> (res: NoticeLog)
        ensures
            res@ == Seq::<NoticeView>::empty(),
    {
        let res = NoticeLog { entries: VecDeque::new() };
        assert(res@ =~= Seq::<NoticeView>::empty());
        res
    }

    /// Takes a notification that came in a frame.
    pub fn take(&mut self, notice: Notification, frame: u64)
        requires
            old(self)@.len() <= MAX_NOTIFICATIONS,
        ensures
            final(self)@ == with_notice(old(self)@, NoticeView { notice: notice@, frame }),
            final(self)@.len() <= MAX_NOTIFICATIONS,
    {
        let ghost was = self@;
        let ghost view = notice@;
        self.entries.push_back((notice, frame));
        assert(self@ =~= was.push(NoticeView { notice: view, frame }));
        let ghost more = self@;
        if self.entries.len() > MAX_NOTIFICATIONS {
            let _ = self.entries.pop_front();
            assert(self@ =~= more.skip(1));
        }
    }

    /// How many notifications are kept.
    pub fn len(&self) -> (res: usize)
        ensures
            res == self@.len(),
    {
        self.entries.len()
    }

    /// The notification that is `back` places before the newest.
    pub fn newest(&self, back: usize) -> (res: Option<&Notification>)
        ensures
            match res {
                Some(n) => back < self@.len() && n@ == self@[self@.len() - 1 - back].notice,
                None => back >= self@.len(),
            },
    {
        let len: usize = self.entries.len();
        if back < len {
            Some(&self.entries[len - 1 - back].0)
        } else {
            None
        }
    }

    /// What the bar shows in a frame.
    pub fn bar(&self, frame: u64) -> (res: Option<&Notification>)
        ensures
            match res {
                Some(n) => bar(self@, frame) == Some(n@),
                None => bar(self@, frame) is None,
            },
    {
        let len: usize = self.entries.len();
        if len == 0 {
            return None;
        }
        let entry = &self.entries[len - 1];
        assert(self@.last() == self@[len - 1]);
        let shown = match entry.0.level {
            NotificationLevel::Error => true,
            _ => frame < entry.1 || frame - entry.1 < NOTIFICATION_DISMISS_FRAMES,
        };
        if shown {
            Some(&entry.0)
        } else {
            None
        }
    }
}

/// An error stays in the bar until something newer comes.
pub proof fn error_stays(log: Seq<NoticeView>, frame: u64)
    requires
        log.len() > 0,
        log.last().notice.level == NotificationLevel::Error,
    ensures
        bar(log, frame) == Some(log.last().notice),
{
}

/// Whatever else is shown is shown for ten seconds and no longer.
pub proof fn others_fade(log: Seq<NoticeView>, frame: u64)
    requires
        log.len() > 0,
        log.last().notice.level != NotificationLevel::Error,
    ensures
        bar(log, frame) == (if frame < log.last().frame + NOTIFICATION_DISMISS_FRAMES {
            Some(log.last().notice)
        } else {
            None
        }),
{
}

/// The newest notification is always kept, and so are those before it, as far as there is room.
pub proof fn notices_are_kept(log: Seq<NoticeView>, notice: NoticeView)
    requires
        log.len() <= MAX_NOTIFICATIONS,
    ensures
        with_notice(log, notice).len() > 0,
        with_notice(log, notice).last() == notice,
        log.len() < MAX_NOTIFICATIONS ==> with_notice(log, notice).drop_last() == log,
        log.len() == MAX_NOTIFICATIONS ==> with_notice(log, notice).drop_last() == log.skip(1),
{
    assert(with_notice(log, notice).drop_last() =~= if log.len() < MAX_NOTIFICATIONS {
        log
    } else {
        log.skip(1)
    });
}

/// Two hundred notifications are kept, the newest of them, in the order in which they came; whatever
/// is no error leaves the bar after a hundred frames, which are ten seconds, and stays in the log.
pub proof fn two_hundred_notices_are_kept(log: Seq<NoticeView>, notice: NoticeView, frame: u64)
    requires
        log.len() <= 200,
    ensures
        with_notice(log, notice).len() == vstd::math::min(log.len() as int + 1, 200),
        with_notice(log, notice).last() == notice,
        forall|k: int|
            0 <= k < with_notice(log, notice).len() - 1 ==> #[trigger] with_notice(log, notice)[k]
                == log[log.len() + 1 - with_notice(log, notice).len() + k],
        notice.notice.level != NotificationLevel::Error && frame >= notice.frame + 100 ==> bar(
            with_notice(log, notice),
            frame,
        ) is None,
        notice.notice.level == NotificationLevel::Error || frame < notice.frame + 100 ==> bar(
            with_notice(log, notice),
            frame,
        ) == Some(notice.notice),
{
}

}

use vstd::prelude::*;

use crate::apps::keypad::{clears_list, NextScreen};
use crate::ble::{utf8_str, utf8_text};
use crate::buttons::{Button, ButtonSatuChange};
use crate::pressed::{after_key_event, pressed_contents, PressedButtons};

verus! {

/// Number of messages kept.
pub const MESSAGE_HISTORY: usize = 10;

/// The last messages received, oldest first, in a fixed-capacity ring buffer.
#[verifier::external_body]
pub struct MessageLog {
    buf: heapless::HistoryBuf<String, 10>,
}

/// The messages held, oldest first.
pub uninterp spec fn message_log_contents(l: MessageLog) -> Seq<String>;

/// The messages after one more arrived: the oldest is dropped when ten are held.
pub open spec fn logged(s: Seq<String>, m: String) -> Seq<String> {
    if s.len() >= MESSAGE_HISTORY {
        s.drop_first().push(m)
    } else {
        s.push(m)
    }
}

impl MessageLog {
    /// An empty log; calls `HistoryBuf::new`.
    #[verifier::external_body]
    pub(crate) fn empty() -> (l: MessageLog)
        ensures
            message_log_contents(l) == Seq::<String>::empty(),
    {
        MessageLog { buf: heapless::HistoryBuf::new() }
    }

    /// Adds a message, overwriting the oldest once the buffer is full; calls `HistoryBuf::write`.
    #[verifier::external_body]
    pub(crate) fn write(&mut self, m: String)
        ensures
            message_log_contents(*final(self)) == logged(message_log_contents(*old(self)), m),
            message_log_contents(*final(self)).len() <= MESSAGE_HISTORY,
    {
        self.buf.write(m)
    }

    /// Forgets every message; calls `HistoryBuf::clear`.
    #[verifier::external_body]
    pub(crate) fn clear(&mut self)
        ensures
            message_log_contents(*final(self)) == Seq::<String>::empty(),
    {
        self.buf.clear()
    }

    /// Copies of the messages, oldest first; calls `HistoryBuf::oldest_ordered`.
    #[verifier::external_body]
    pub(crate) fn oldest_first(&self) -> (r: Vec<String>)
        ensures
            r@ == message_log_contents(*self),
    {
        self.buf.oldest_ordered().cloned().collect()
    }
}

/// A key event leaves the messaging screen: NO coming up.
pub open spec fn messages_exit(key: Button, released: bool) -> bool {
    released && key == Button::BtnNo
}

/// A message as listed: `* ` and the text.
pub open spec fn message_line(m: String) -> Seq<char> {
    seq!['*', ' '] + m@
}

/// The GATT messaging screen: the keys held and the last messages.
pub struct App {
    pub buttons_down: PressedButtons,
    pub messages: MessageLog,
}

impl App {
    /// No key held, no message.
    pub fn new() -> (app: App)
        ensures
            pressed_contents(app.buttons_down) == Seq::<Button>::empty(),
            message_log_contents(app.messages) == Seq::<String>::empty(),
    {
        App { buttons_down: PressedButtons::new(), messages: MessageLog::empty() }
    }

    /// Takes in a received message.
    pub fn handle_message(&mut self, message: String)
        ensures
            message_log_contents(final(self).messages) == logged(
                message_log_contents(old(self).messages),
                message,
            ),
            pressed_contents(final(self).buttons_down) == pressed_contents(old(self).buttons_down),
    {
        self.messages.write(message);
    }

    /// Handles a key event. Keys act when they come up: NO leaves, 0 forgets every message.
    pub fn handle_input(&mut self, event: (Button, ButtonSatuChange)) -> (r: Option<NextScreen>)
        requires
            !event.1.was_presed ==> pressed_contents(old(self).buttons_down).len() < Button::COUNT,
        ensures
            pressed_contents(final(self).buttons_down) == after_key_event(
                pressed_contents(old(self).buttons_down),
                event.0,
                event.1.was_presed,
            ),
            message_log_contents(final(self).messages) == (if clears_list(event.0, event.1.was_presed) {
                Seq::<String>::empty()
            } else {
                message_log_contents(old(self).messages)
            }),
            r == (if messages_exit(event.0, event.1.was_presed) {
                Some(NextScreen::Back)
            } else {
                None
            }),
    {
        self.buttons_down.record(event.0, event.1.was_presed);
        if event.1.was_presed {
            match event.0 {
                Button::BtnNo => Some(NextScreen::Back),
                Button::Btn0 => {
                    self.messages.clear();
                    None
                },
                _ => None,
            }
        } else {
            None
        }
    }

    /// The lines shown: every message, newest first.
    pub fn message_lines(&self) -> (r: Vec<String>)
        ensures
            r@.len() == message_log_contents(self.messages).len(),
            forall|k: int|
                0 <= k < r@.len() ==> #[trigger] r@[k]@ == message_line(
                    message_log_contents(self.messages)[r@.len() - 1 - k],
                ),
    {
        let all = self.messages.oldest_first();
        let mut lines: Vec<String> = Vec::new();
        let mut k: usize = all.len();
        while k > 0
            invariant
                all@ == message_log_contents(self.messages),
                k <= all@.len(),
                lines@.len() == all@.len() - k,
                forall|m: int|
                    0 <= m < lines@.len() ==> #[trigger] lines@[m]@ == message_line(
                        all@[all@.len() - 1 - m],
                    ),
            decreases k,
        {
            k = k - 1;
            let mut line = String::from_str("* ");
            proof {
                reveal_strlit("* ");
            }
            line.append(all[k].as_str());
            proof {
                assert(line@ =~= message_line(all@[k as int]));
            }
            lines.push(line);
        }
        lines
    }
}

/// The log never holds more than ten messages, and the message just written is the newest,
/// after the ones that were kept in their order.
pub proof fn lemma_logged_newest(s: Seq<String>, m: String)
    requires
        s.len() <= MESSAGE_HISTORY,
    ensures
        logged(s, m).len() <= MESSAGE_HISTORY,
        logged(s, m).last() == m,
        logged(s, m).len() == (if s.len() < MESSAGE_HISTORY {
            s.len() + 1int
        } else {
            MESSAGE_HISTORY as int
        }),
        forall|i: int|
            0 <= i < logged(s, m).len() - 1 ==> #[trigger] logged(s, m)[i] == s[i + s.len() + 1
                - logged(s, m).len()],
{
}

/// The message text carried by a packet: its bytes when they are valid UTF-8.
pub fn message_text(bytes: &[u8]) -> (r: Option<String>)
    ensures
        match r {
            Some(m) => utf8_text(bytes@) == Some(m@),
            None => utf8_text(bytes@) is None,
        },
{
    match utf8_str(bytes) {
        Some(t) => Some(t.to_owned()),
        None => None,
    }
}

/// The messaging screen is left exactly when NO comes up, and its messages are forgotten
/// exactly when 0 comes up.
pub proof fn lemma_message_keys(key: Button, released: bool)
    ensures
        messages_exit(key, released) <==> (released && key == Button::BtnNo),
        clears_list(key, released) <==> (released && key == Button::Btn0),
{
}

} // verus!

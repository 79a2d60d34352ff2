use vstd::prelude::*;

use crate::time::ticks_between;

verus! {

/// One of the twelve keys of the badge keypad.
#[derive(Debug, Clone, Copy, PartialEq, Eq, Structural)]
pub enum Button {
    Btn0,
    Btn1,
    Btn2,
    Btn3,
    Btn4,
    Btn5,
    Btn6,
    Btn7,
    Btn8,
    Btn9,
    BtnYes,
    BtnNo,
}

/// The label printed on a key.
pub open spec fn button_label(b: Button) -> Seq<char> {
    match b {
        Button::Btn0 => seq!['0'],
        Button::Btn1 => seq!['1'],
        Button::Btn2 => seq!['2'],
        Button::Btn3 => seq!['3'],
        Button::Btn4 => seq!['4'],
        Button::Btn5 => seq!['5'],
        Button::Btn6 => seq!['6'],
        Button::Btn7 => seq!['7'],
        Button::Btn8 => seq!['8'],
        Button::Btn9 => seq!['9'],
        Button::BtnYes => seq!['Y', 'E', 'S'],
        Button::BtnNo => seq!['N', 'O'],
    }
}

impl Button {
    /// Number of keys on the keypad.
    pub const COUNT: usize = 12;

    /// The label of the key.
    pub fn name(&self) -> (r: &'static str)
        ensures
            r@ == button_label(*self),
    {
        match self {
            Button::Btn0 => {
                proof { reveal_strlit("0"); }
                "0"
            },
            Button::Btn1 => {
                proof { reveal_strlit("1"); }
                "1"
            },
            Button::Btn2 => {
                proof { reveal_strlit("2"); }
                "2"
            },
            Button::Btn3 => {
                proof { reveal_strlit("3"); }
                "3"
            },
            Button::Btn4 => {
                proof { reveal_strlit("4"); }
                "4"
            },
            Button::Btn5 => {
                proof { reveal_strlit("5"); }
                "5"
            },
            Button::Btn6 => {
                proof { reveal_strlit("6"); }
                "6"
            },
            Button::Btn7 => {
                proof { reveal_strlit("7"); }
                "7"
            },
            Button::Btn8 => {
                proof { reveal_strlit("8"); }
                "8"
            },
            Button::Btn9 => {
                proof { reveal_strlit("9"); }
                "9"
            },
            Button::BtnYes => {
                proof { reveal_strlit("YES"); }
                "YES"
            },
            Button::BtnNo => {
                proof { reveal_strlit("NO"); }
                "NO"
            },
        }
    }
}

/// The twelve keys in keypad order.
pub open spec fn all_buttons() -> Seq<Button> {
    seq![Button::Btn0, Button::Btn1, Button::Btn2, Button::Btn3, Button::Btn4, Button::Btn5, Button::Btn6, Button::Btn7, Button::Btn8, Button::Btn9, Button::BtnYes, Button::BtnNo]
}

/// Pressed state of one key and when it last changed.
#[derive(Debug, Clone, Copy)]
pub struct ButtonStatus {
    pub pressed: bool,
    /// Time of the last change, in timer ticks.
    pub since: u64,
}

impl Default for ButtonStatus {
    fn default() -> (r: ButtonStatus)
        ensures
            r == (ButtonStatus { pressed: false, since: 0 }),
    {
        ButtonStatus { pressed: false, since: 0 }
    }
}

/// A key went down or came up.
#[derive(Debug, Clone, Copy)]
pub struct ButtonSatuChange {
    /// The key was down before this change (so the change is a release).
    pub was_presed: bool,
    /// How long the key stayed in its previous state, in timer ticks.
    pub duration: u64,
}

/// The change that reading `pressed` at `instant` makes to a key, if any.
pub open spec fn status_change(st: ButtonStatus, pressed: bool, instant: u64) -> Option<ButtonSatuChange> {
    if pressed != st.pressed {
        Some(ButtonSatuChange { was_presed: st.pressed, duration: (instant - st.since) as u64 })
    } else {
        None
    }
}

/// A key's status after reading `pressed` at `instant`.
pub open spec fn updated_status(st: ButtonStatus, pressed: bool, instant: u64) -> ButtonStatus {
    if pressed != st.pressed {
        ButtonStatus { pressed, since: instant }
    } else {
        st
    }
}

impl ButtonStatus {
    /// Records a reading of the key; returns the change when the pressed state differs from the
    /// recorded one.
    pub fn update(&mut self, pressed: bool, instant: u64) -> (r: Option<ButtonSatuChange>)
        requires
            pressed != old(self).pressed ==> old(self).since <= instant,
        ensures
            r == status_change(*old(self), pressed, instant),
            *final(self) == updated_status(*old(self), pressed, instant),
    {
        if pressed != self.pressed {
            let status_change = ButtonSatuChange {
                was_presed: self.pressed,
                duration: ticks_between(self.since, instant),
            };
            self.pressed = pressed;
            self.since = instant;
            Some(status_change)
        } else {
            None
        }
    }
}

/// The two input registers of the I/O expander the keypad is wired to: keys 0 to 7 on port 0
/// bits 0 to 7, keys 8, 9, YES and NO on port 1 bits 0 to 3; a set bit is a pressed key.
#[derive(Debug, Clone, Copy)]
pub struct ExpanderInput {
    pub port0: u8,
    pub port1: u8,
}

/// Bit `bit` of a register is set.
pub open spec fn port_bit(byte: u8, bit: u8) -> bool {
    (byte >> bit) & 1u8 == 1u8
}

fn pin(byte: u8, bit: u8) -> (r: bool)
    requires
        bit < 8,
    ensures
        r == port_bit(byte, bit),
{
    (byte >> bit) & 1u8 == 1u8
}

/// The level an input reading gives a key.
pub open spec fn button_level(input: ExpanderInput, b: Button) -> bool {
    match b {
        Button::Btn0 => port_bit(input.port0, 0u8),
        Button::Btn1 => port_bit(input.port0, 1u8),
        Button::Btn2 => port_bit(input.port0, 2u8),
        Button::Btn3 => port_bit(input.port0, 3u8),
        Button::Btn4 => port_bit(input.port0, 4u8),
        Button::Btn5 => port_bit(input.port0, 5u8),
        Button::Btn6 => port_bit(input.port0, 6u8),
        Button::Btn7 => port_bit(input.port0, 7u8),
        Button::Btn8 => port_bit(input.port1, 0u8),
        Button::Btn9 => port_bit(input.port1, 1u8),
        Button::BtnYes => port_bit(input.port1, 2u8),
        Button::BtnNo => port_bit(input.port1, 3u8),
    }
}

/// The status of all keys.
#[derive(Debug, Clone, Copy)]
pub struct ButtonsStatus {
    pub btn_0: ButtonStatus,
    pub btn_1: ButtonStatus,
    pub btn_2: ButtonStatus,
    pub btn_3: ButtonStatus,
    pub btn_4: ButtonStatus,
    pub btn_5: ButtonStatus,
    pub btn_6: ButtonStatus,
    pub btn_7: ButtonStatus,
    pub btn_8: ButtonStatus,
    pub btn_9: ButtonStatus,
    pub btn_yes: ButtonStatus,
    pub btn_no: ButtonStatus,
}

/// The recorded status of one key.
pub open spec fn status_of(s: ButtonsStatus, b: Button) -> ButtonStatus {
    match b {
        Button::Btn0 => s.btn_0,
        Button::Btn1 => s.btn_1,
        Button::Btn2 => s.btn_2,
        Button::Btn3 => s.btn_3,
        Button::Btn4 => s.btn_4,
        Button::Btn5 => s.btn_5,
        Button::Btn6 => s.btn_6,
        Button::Btn7 => s.btn_7,
        Button::Btn8 => s.btn_8,
        Button::Btn9 => s.btn_9,
        Button::BtnYes => s.btn_yes,
        Button::BtnNo => s.btn_no,
    }
}

/// All keys after recording a reading at `instant`.
pub open spec fn updated_all(s: ButtonsStatus, input: ExpanderInput, instant: u64) -> ButtonsStatus {
    ButtonsStatus {
        btn_0: updated_status(s.btn_0, button_level(input, Button::Btn0), instant),
        btn_1: updated_status(s.btn_1, button_level(input, Button::Btn1), instant),
        btn_2: updated_status(s.btn_2, button_level(input, Button::Btn2), instant),
        btn_3: updated_status(s.btn_3, button_level(input, Button::Btn3), instant),
        btn_4: updated_status(s.btn_4, button_level(input, Button::Btn4), instant),
        btn_5: updated_status(s.btn_5, button_level(input, Button::Btn5), instant),
        btn_6: updated_status(s.btn_6, button_level(input, Button::Btn6), instant),
        btn_7: updated_status(s.btn_7, button_level(input, Button::Btn7), instant),
        btn_8: updated_status(s.btn_8, button_level(input, Button::Btn8), instant),
        btn_9: updated_status(s.btn_9, button_level(input, Button::Btn9), instant),
        btn_yes: updated_status(s.btn_yes, button_level(input, Button::BtnYes), instant),
        btn_no: updated_status(s.btn_no, button_level(input, Button::BtnNo), instant),
    }
}

/// The changes a reading makes to the first `n` keys, in keypad order.
pub open spec fn changes_upto(s: ButtonsStatus, input: ExpanderInput, instant: u64, n: nat) -> Seq<
    (Button, ButtonSatuChange),
>
    decreases n,
{
    if n == 0 {
        Seq::empty()
    } else {
        let prev = changes_upto(s, input, instant, (n - 1) as nat);
        let b = all_buttons()[n - 1];
        match status_change(status_of(s, b), button_level(input, b), instant) {
            Some(c) => prev.push((b, c)),
            None => prev,
        }
    }
}

/// The changes a reading makes, in keypad order.
pub open spec fn reading_changes(s: ButtonsStatus, input: ExpanderInput, instant: u64) -> Seq<
    (Button, ButtonSatuChange),
> {
    changes_upto(s, input, instant, 12)
}

/// The reading is not older than any key it changes.
pub open spec fn reading_in_order(s: ButtonsStatus, input: ExpanderInput, instant: u64) -> bool {
    forall|b: Button|
        button_level(input, b) != #[trigger] status_of(s, b).pressed ==> status_of(s, b).since
            <= instant
}

/// The changes reported by one reading, at most one per key.
#[verifier::external_body]
pub struct ButtonChanges {
    changes: heapless::Vec<(Button, ButtonSatuChange), 12>,
}

/// The changes held, in the order they were added.
pub uninterp spec fn button_changes_contents(c: ButtonChanges) -> Seq<(Button, ButtonSatuChange)>;

impl ButtonChanges {
    /// An empty list; calls `heapless::Vec::new`.
    #[verifier::external_body]
    pub(crate) fn empty() -> (c: ButtonChanges)
        ensures
            button_changes_contents(c) == Seq::<(Button, ButtonSatuChange)>::empty(),
    {
        ButtonChanges { changes: heapless::Vec::new() }
    }

    /// Number of changes; calls `heapless::Vec::len`. The list holds at most 12 changes.
    #[verifier::external_body]
    pub(crate) fn count(&self) -> (r: usize)
        ensures
            r == button_changes_contents(*self).len(),
            r <= Button::COUNT,
    {
        self.changes.len()
    }

    /// The change at a position; indexes the `heapless::Vec`.
    #[verifier::external_body]
    pub(crate) fn at(&self, i: usize) -> (r: (Button, ButtonSatuChange))
        requires
            i < button_changes_contents(*self).len(),
        ensures
            r == button_changes_contents(*self)[i as int],
    {
        self.changes[i]
    }

    /// Appends a change if there is room; calls `heapless::Vec::push`, which hands the item back
    /// when the list already holds 12.
    #[verifier::external_body]
    pub(crate) fn push(&mut self, item: (Button, ButtonSatuChange)) -> (r: Result<(), (Button, ButtonSatuChange)>)
        ensures
            button_changes_contents(*old(self)).len() < Button::COUNT ==> r is Ok,
            button_changes_contents(*old(self)).len() < Button::COUNT ==> button_changes_contents(
                *final(self),
            ) == button_changes_contents(*old(self)).push(item),
            button_changes_contents(*old(self)).len() >= Button::COUNT ==> (r matches Err(back)
                && back == item),
            button_changes_contents(*old(self)).len() >= Button::COUNT ==> button_changes_contents(
                *final(self),
            ) == button_changes_contents(*old(self)),
    {
        self.changes.push(item)
    }

    /// Number of changes.
    pub fn len(&self) -> (r: usize)
        ensures
            r == button_changes_contents(*self).len(),
            r <= Button::COUNT,
    {
        self.count()
    }

    /// The change at a position.
    pub fn get(&self, i: usize) -> (r: (Button, ButtonSatuChange))
        requires
            i < button_changes_contents(*self).len(),
        ensures
            r == button_changes_contents(*self)[i as int],
    {
        self.at(i)
    }
}

fn record_key(
    changed: &mut ButtonChanges,
    b: Button,
    status: &mut ButtonStatus,
    pressed: bool,
    instant: u64,
    Ghost(s0): Ghost<ButtonsStatus>,
    Ghost(input): Ghost<ExpanderInput>,
    Ghost(k): Ghost<nat>,
)
    requires
        k < 12,
        all_buttons()[k as int] == b,
        *old(status) == status_of(s0, b),
        pressed == button_level(input, b),
        reading_in_order(s0, input, instant),
        button_changes_contents(*old(changed)) == changes_upto(s0, input, instant, k),
    ensures
        *final(status) == updated_status(*old(status), pressed, instant),
        button_changes_contents(*final(changed)) == changes_upto(s0, input, instant, k + 1),
{
    proof {
        lemma_changes_upto_len(s0, input, instant, k);
        assert(button_level(input, b) != status_of(s0, b).pressed ==> status_of(s0, b).since <= instant);
    }
    if let Some(change) = status.update(pressed, instant) {
        let _ = changed.push((b, change));
    }
}

/// A reading changes at most `n` of the first `n` keys; so the changes of a whole reading
/// always fit in a list of twelve.
pub proof fn lemma_changes_upto_len(s: ButtonsStatus, input: ExpanderInput, instant: u64, n: nat)
    ensures
        changes_upto(s, input, instant, n).len() <= n,
    decreases n,
{
    if n > 0 {
        lemma_changes_upto_len(s, input, instant, (n - 1) as nat);
    }
}

fn key_in_order(st: ButtonStatus, pressed: bool, instant: u64) -> (r: bool)
    ensures
        r == (pressed != st.pressed ==> st.since <= instant),
{
    pressed == st.pressed || st.since <= instant
}

impl Default for ButtonsStatus {
    fn default() -> (r: ButtonsStatus)
        ensures
            forall|b: Button| #[trigger] status_of(r, b) == (ButtonStatus { pressed: false, since: 0 }),
    {
        ButtonsStatus::new()
    }
}

impl ButtonsStatus {
    /// All keys released, last changed at time zero.
    pub fn new() -> (r: ButtonsStatus)
        ensures
            forall|b: Button| #[trigger] status_of(r, b) == (ButtonStatus { pressed: false, since: 0 }),
    {
        ButtonsStatus {
            btn_0: ButtonStatus::default(),
            btn_1: ButtonStatus::default(),
            btn_2: ButtonStatus::default(),
            btn_3: ButtonStatus::default(),
            btn_4: ButtonStatus::default(),
            btn_5: ButtonStatus::default(),
            btn_6: ButtonStatus::default(),
            btn_7: ButtonStatus::default(),
            btn_8: ButtonStatus::default(),
            btn_9: ButtonStatus::default(),
            btn_yes: ButtonStatus::default(),
            btn_no: ButtonStatus::default(),
        }
    }

    fn update_port0(
        &mut self,
        changed: &mut ButtonChanges,
        input: ExpanderInput,
        instant: u64,
        Ghost(s0): Ghost<ButtonsStatus>,
    )
        requires
            *old(self) == s0,
            reading_in_order(s0, input, instant),
            button_changes_contents(*old(changed)) == changes_upto(s0, input, instant, 0),
        ensures
            final(self).btn_8 == old(self).btn_8,
            final(self).btn_9 == old(self).btn_9,
            final(self).btn_yes == old(self).btn_yes,
            final(self).btn_no == old(self).btn_no,
            final(self).btn_0 == updated_all(s0, input, instant).btn_0,
            final(self).btn_1 == updated_all(s0, input, instant).btn_1,
            final(self).btn_2 == updated_all(s0, input, instant).btn_2,
            final(self).btn_3 == updated_all(s0, input, instant).btn_3,
            final(self).btn_4 == updated_all(s0, input, instant).btn_4,
            final(self).btn_5 == updated_all(s0, input, instant).btn_5,
            final(self).btn_6 == updated_all(s0, input, instant).btn_6,
            final(self).btn_7 == updated_all(s0, input, instant).btn_7,
            button_changes_contents(*final(changed)) == changes_upto(s0, input, instant, 8),
    {
        record_key(
            changed,
            Button::Btn0,
            &mut self.btn_0,
            pin(input.port0, 0),
            instant,
            Ghost(s0),
            Ghost(input),
            Ghost(0nat),
        );
        record_key(
            changed,
            Button::Btn1,
            &mut self.btn_1,
            pin(input.port0, 1),
            instant,
            Ghost(s0),
            Ghost(input),
            Ghost(1nat),
        );
        record_key(
            changed,
            Button::Btn2,
            &mut self.btn_2,
            pin(input.port0, 2),
            instant,
            Ghost(s0),
            Ghost(input),
            Ghost(2nat),
        );
        record_key(
            changed,
            Button::Btn3,
            &mut self.btn_3,
            pin(input.port0, 3),
            instant,
            Ghost(s0),
            Ghost(input),
            Ghost(3nat),
        );
        record_key(
            changed,
            Button::Btn4,
            &mut self.btn_4,
            pin(input.port0, 4),
            instant,
            Ghost(s0),
            Ghost(input),
            Ghost(4nat),
        );
        record_key(
            changed,
            Button::Btn5,
            &mut self.btn_5,
            pin(input.port0, 5),
            instant,
            Ghost(s0),
            Ghost(input),
            Ghost(5nat),
        );
        record_key(
            changed,
            Button::Btn6,
            &mut self.btn_6,
            pin(input.port0, 6),
            instant,
            Ghost(s0),
            Ghost(input),
            Ghost(6nat),
        );
        record_key(
            changed,
            Button::Btn7,
            &mut self.btn_7,
            pin(input.port0, 7),
            instant,
            Ghost(s0),
            Ghost(input),
            Ghost(7nat),
        );
    }

    fn update_port1(
        &mut self,
        changed: &mut ButtonChanges,
        input: ExpanderInput,
        instant: u64,
        Ghost(s0): Ghost<ButtonsStatus>,
    )
        requires
            old(self).btn_8 == s0.btn_8,
            old(self).btn_9 == s0.btn_9,
            old(self).btn_yes == s0.btn_yes,
            old(self).btn_no == s0.btn_no,
            reading_in_order(s0, input, instant),
            button_changes_contents(*old(changed)) == changes_upto(s0, input, instant, 8),
        ensures
            final(self).btn_0 == old(self).btn_0,
            final(self).btn_1 == old(self).btn_1,
            final(self).btn_2 == old(self).btn_2,
            final(self).btn_3 == old(self).btn_3,
            final(self).btn_4 == old(self).btn_4,
            final(self).btn_5 == old(self).btn_5,
            final(self).btn_6 == old(self).btn_6,
            final(self).btn_7 == old(self).btn_7,
            final(self).btn_8 == updated_all(s0, input, instant).btn_8,
            final(self).btn_9 == updated_all(s0, input, instant).btn_9,
            final(self).btn_yes == updated_all(s0, input, instant).btn_yes,
            final(self).btn_no == updated_all(s0, input, instant).btn_no,
            button_changes_contents(*final(changed)) == changes_upto(s0, input, instant, 12),
    {
        record_key(
            changed,
            Button::Btn8,
            &mut self.btn_8,
            pin(input.port1, 0),
            instant,
            Ghost(s0),
            Ghost(input),
            Ghost(8nat),
        );
        record_key(
            changed,
            Button::Btn9,
            &mut self.btn_9,
            pin(input.port1, 1),
            instant,
            Ghost(s0),
            Ghost(input),
            Ghost(9nat),
        );
        record_key(
            changed,
            Button::BtnYes,
            &mut self.btn_yes,
            pin(input.port1, 2),
            instant,
            Ghost(s0),
            Ghost(input),
            Ghost(10nat),
        );
        record_key(
            changed,
            Button::BtnNo,
            &mut self.btn_no,
            pin(input.port1, 3),
            instant,
            Ghost(s0),
            Ghost(input),
            Ghost(11nat),
        );
    }

    /// Records a reading of the keypad taken at `instant` and returns the keys that changed, in
    /// keypad order. There is room for a change of every key, so adding a change never fails.
    /// A change's duration is the time since the key's last change, measured with
    /// `Instant::duration_since`, which panics when that change lies after `instant`; so the
    /// reading must not be older than any key it changes (`accepts_reading` tells). Readings
    /// stamped from the monotonic timer always are.
    pub fn update(&mut self, input: ExpanderInput, instant: u64) -> (r: ButtonChanges)
        requires
            reading_in_order(*old(self), input, instant),
        ensures
            button_changes_contents(r) == reading_changes(*old(self), input, instant),
            *final(self) == updated_all(*old(self), input, instant),
    {
        let ghost s0 = *self;
        let mut changed = ButtonChanges::empty();
        self.update_port0(&mut changed, input, instant, Ghost(s0));
        self.update_port1(&mut changed, input, instant, Ghost(s0));
        changed
    }

    /// Whether a reading taken at `instant` may be recorded: it is not older than any key whose
    /// level it changes.
    pub fn accepts_reading(&self, input: ExpanderInput, instant: u64) -> (r: bool)
        ensures
            r == reading_in_order(*self, input, instant),
    {
        let r = key_in_order(self.btn_0, pin(input.port0, 0), instant)
            && key_in_order(self.btn_1, pin(input.port0, 1), instant)
            && key_in_order(self.btn_2, pin(input.port0, 2), instant)
            && key_in_order(self.btn_3, pin(input.port0, 3), instant)
            && key_in_order(self.btn_4, pin(input.port0, 4), instant)
            && key_in_order(self.btn_5, pin(input.port0, 5), instant)
            && key_in_order(self.btn_6, pin(input.port0, 6), instant)
            && key_in_order(self.btn_7, pin(input.port0, 7), instant)
            && key_in_order(self.btn_8, pin(input.port1, 0), instant)
            && key_in_order(self.btn_9, pin(input.port1, 1), instant)
            && key_in_order(self.btn_yes, pin(input.port1, 2), instant)
            && key_in_order(self.btn_no, pin(input.port1, 3), instant);
        proof {
            assert(status_of(*self, Button::Btn0) == self.btn_0);
            assert(status_of(*self, Button::Btn1) == self.btn_1);
            assert(status_of(*self, Button::Btn2) == self.btn_2);
            assert(status_of(*self, Button::Btn3) == self.btn_3);
            assert(status_of(*self, Button::Btn4) == self.btn_4);
            assert(status_of(*self, Button::Btn5) == self.btn_5);
            assert(status_of(*self, Button::Btn6) == self.btn_6);
            assert(status_of(*self, Button::Btn7) == self.btn_7);
            assert(status_of(*self, Button::Btn8) == self.btn_8);
            assert(status_of(*self, Button::Btn9) == self.btn_9);
            assert(status_of(*self, Button::BtnYes) == self.btn_yes);
            assert(status_of(*self, Button::BtnNo) == self.btn_no);
            if r {
                assert forall|b: Button|
                    button_level(input, b) != #[trigger] status_of(*self, b).pressed implies status_of(
                    *self,
                    b,
                ).since <= instant by {
                    match b {
                        Button::Btn0 => {},
                        Button::Btn1 => {},
                        Button::Btn2 => {},
                        Button::Btn3 => {},
                        Button::Btn4 => {},
                        Button::Btn5 => {},
                        Button::Btn6 => {},
                        Button::Btn7 => {},
                        Button::Btn8 => {},
                        Button::Btn9 => {},
                        Button::BtnYes => {},
                        Button::BtnNo => {},
                    }
                }
            }
        }
        r
    }

    /// The recorded status of one key.
    pub fn button_status(&self, button: Button) -> (r: ButtonStatus)
        ensures
            r == status_of(*self, button),
    {
        match button {
            Button::Btn0 => self.btn_0,
            Button::Btn1 => self.btn_1,
            Button::Btn2 => self.btn_2,
            Button::Btn3 => self.btn_3,
            Button::Btn4 => self.btn_4,
            Button::Btn5 => self.btn_5,
            Button::Btn6 => self.btn_6,
            Button::Btn7 => self.btn_7,
            Button::Btn8 => self.btn_8,
            Button::Btn9 => self.btn_9,
            Button::BtnYes => self.btn_yes,
            Button::BtnNo => self.btn_no,
        }
    }
}

/// After a reading, every key's recorded state is the level that reading gave it, and a key
/// whose level changed records the reading's time.
pub proof fn lemma_reading_sets_levels(s: ButtonsStatus, input: ExpanderInput, instant: u64, b: Button)
    ensures
        status_of(updated_all(s, input, instant), b).pressed == button_level(input, b),
        button_level(input, b) != status_of(s, b).pressed ==> status_of(
            updated_all(s, input, instant),
            b,
        ).since == instant,
        button_level(input, b) == status_of(s, b).pressed ==> status_of(
            updated_all(s, input, instant),
            b,
        ) == status_of(s, b),
{
}

/// Reading the same levels again reports no change, whatever the time.
pub proof fn lemma_same_reading_twice(
    s: ButtonsStatus,
    input: ExpanderInput,
    first: u64,
    second: u64,
)
    ensures
        reading_changes(updated_all(s, input, first), input, second) == Seq::<
            (Button, ButtonSatuChange),
        >::empty(),
{
    let s1 = updated_all(s, input, first);
    assert forall|b: Button| #[trigger] status_of(s1, b).pressed == button_level(input, b) by {
        lemma_reading_sets_levels(s, input, first, b);
    }
    lemma_no_changes_upto(s1, input, second, 12);
}

proof fn lemma_no_changes_upto(s: ButtonsStatus, input: ExpanderInput, instant: u64, n: nat)
    requires
        n <= 12,
        forall|b: Button| #[trigger] status_of(s, b).pressed == button_level(input, b),
    ensures
        changes_upto(s, input, instant, n) == Seq::<(Button, ButtonSatuChange)>::empty(),
    decreases n,
{
    if n > 0 {
        lemma_no_changes_upto(s, input, instant, (n - 1) as nat);
        let b = all_buttons()[n - 1];
        assert(status_of(s, b).pressed == button_level(input, b));
    }
}

/// A reading reports exactly the keys whose level differs from their recorded state, once
/// each, in keypad order.
pub proof fn lemma_changes_are_the_differing_keys(
    s: ButtonsStatus,
    input: ExpanderInput,
    instant: u64,
    n: nat,
)
    requires
        n <= 12,
    ensures
        forall|k: int|
            0 <= k < n ==> (button_level(input, #[trigger] all_buttons()[k]) != status_of(
                s,
                all_buttons()[k],
            ).pressed <==> changes_upto(s, input, instant, n).contains(
                (
                    all_buttons()[k],
                    ButtonSatuChange {
                        was_presed: status_of(s, all_buttons()[k]).pressed,
                        duration: (instant - status_of(s, all_buttons()[k]).since) as u64,
                    },
                ),
            )),
        forall|k: int|
            0 <= k < changes_upto(s, input, instant, n).len() ==> exists|m: int|
                0 <= m < n && #[trigger] changes_upto(s, input, instant, n)[k].0 == all_buttons()[m],
    decreases n,
{
    if n > 0 {
        lemma_changes_are_the_differing_keys(s, input, instant, (n - 1) as nat);
        let prev = changes_upto(s, input, instant, (n - 1) as nat);
        let cur = changes_upto(s, input, instant, n);
        let b = all_buttons()[n - 1];
        assert forall|k: int| 0 <= k < n implies (button_level(input, #[trigger] all_buttons()[k])
            != status_of(s, all_buttons()[k]).pressed <==> cur.contains(
            (
                all_buttons()[k],
                ButtonSatuChange {
                    was_presed: status_of(s, all_buttons()[k]).pressed,
                    duration: (instant - status_of(s, all_buttons()[k]).since) as u64,
                },
            ),
        )) by {
            let item = (
                all_buttons()[k],
                ButtonSatuChange {
                    was_presed: status_of(s, all_buttons()[k]).pressed,
                    duration: (instant - status_of(s, all_buttons()[k]).since) as u64,
                },
            );
            if k < n - 1 {
                assert(all_buttons()[k] != b);
                if cur.contains(item) && !prev.contains(item) {
                    let m = choose|m: int| 0 <= m < cur.len() && cur[m] == item;
                    assert(m == prev.len());
                    assert(false);
                }
                if prev.contains(item) {
                    let m = choose|m: int| 0 <= m < prev.len() && prev[m] == item;
                    assert(cur[m] == item);
                }
            } else {
                if cur.contains(item) && !prev.contains(item) {
                } else if prev.contains(item) {
                    let m = choose|m: int| 0 <= m < prev.len() && prev[m] == item;
                    assert(exists|j: int| 0 <= j < n - 1 && #[trigger] prev[m].0 == all_buttons()[j]);
                    let j = choose|j: int| 0 <= j < n - 1 && #[trigger] prev[m].0 == all_buttons()[j];
                    assert(all_buttons()[j] != b);
                    assert(false);
                }
                if button_level(input, b) != status_of(s, b).pressed {
                    assert(cur[prev.len() as int] == item);
                }
            }
        }
        assert forall|k: int| 0 <= k < cur.len() implies exists|m: int|
            0 <= m < n && #[trigger] cur[k].0 == all_buttons()[m] by {
            if k < prev.len() {
                assert(cur[k] == prev[k]);
                let m = choose|m: int| 0 <= m < n - 1 && #[trigger] prev[k].0 == all_buttons()[m];
                assert(cur[k].0 == all_buttons()[m]);
            } else {
                assert(cur[k].0 == all_buttons()[n - 1]);
            }
        }
    }
}

proof fn lemma_low_bits_agree(a: u8, b: u8, k: u8)
    requires
        a & 0x0fu8 == b & 0x0fu8,
        k < 4,
    ensures
        port_bit(a, k) == port_bit(b, k),
{
    assert(((a >> k) & 1u8 == 1u8) == ((b >> k) & 1u8 == 1u8)) by (bit_vector)
        requires
            a & 0x0fu8 == b & 0x0fu8,
            k < 4u8,
    ;
}

proof fn lemma_changes_same_levels(
    s: ButtonsStatus,
    i1: ExpanderInput,
    i2: ExpanderInput,
    instant: u64,
    n: nat,
)
    requires
        forall|b: Button| button_level(i1, b) == #[trigger] button_level(i2, b),
    ensures
        changes_upto(s, i1, instant, n) == changes_upto(s, i2, instant, n),
    decreases n,
{
    if n > 0 {
        lemma_changes_same_levels(s, i1, i2, instant, (n - 1) as nat);
        let b = all_buttons()[n - 1];
        assert(button_level(i1, b) == button_level(i2, b));
    }
}

/// Pins 4 to 7 of port 1 are not wired to keys: two readings that differ only there report the
/// same changes and leave the keys in the same state.
pub proof fn lemma_unwired_pins_ignored(s: ButtonsStatus, i1: ExpanderInput, i2: ExpanderInput, instant: u64)
    requires
        i1.port0 == i2.port0,
        i1.port1 & 0x0fu8 == i2.port1 & 0x0fu8,
    ensures
        reading_changes(s, i1, instant) == reading_changes(s, i2, instant),
        updated_all(s, i1, instant) == updated_all(s, i2, instant),
        reading_in_order(s, i1, instant) == reading_in_order(s, i2, instant),
{
    lemma_low_bits_agree(i1.port1, i2.port1, 0);
    lemma_low_bits_agree(i1.port1, i2.port1, 1);
    lemma_low_bits_agree(i1.port1, i2.port1, 2);
    lemma_low_bits_agree(i1.port1, i2.port1, 3);
    assert forall|b: Button| button_level(i1, b) == #[trigger] button_level(i2, b) by {}
    lemma_changes_same_levels(s, i1, i2, instant, 12);
}

/// The keypad wiring: keys 0 to 7 read bits 0 to 7 of port 0, and keys 8, 9, YES and NO read
/// bits 0, 1, 2 and 3 of port 1; a set bit is a pressed key.
pub proof fn lemma_key_wiring(input: ExpanderInput)
    ensures
        button_level(input, Button::Btn0) == (input.port0 & 0x01u8 != 0),
        button_level(input, Button::Btn1) == (input.port0 & 0x02u8 != 0),
        button_level(input, Button::Btn2) == (input.port0 & 0x04u8 != 0),
        button_level(input, Button::Btn3) == (input.port0 & 0x08u8 != 0),
        button_level(input, Button::Btn4) == (input.port0 & 0x10u8 != 0),
        button_level(input, Button::Btn5) == (input.port0 & 0x20u8 != 0),
        button_level(input, Button::Btn6) == (input.port0 & 0x40u8 != 0),
        button_level(input, Button::Btn7) == (input.port0 & 0x80u8 != 0),
        button_level(input, Button::Btn8) == (input.port1 & 0x01u8 != 0),
        button_level(input, Button::Btn9) == (input.port1 & 0x02u8 != 0),
        button_level(input, Button::BtnYes) == (input.port1 & 0x04u8 != 0),
        button_level(input, Button::BtnNo) == (input.port1 & 0x08u8 != 0),
{
    let a = input.port0;
    let b = input.port1;
    assert(((a >> 0u8) & 1u8 == 1u8) == (a & 0x01u8 != 0) && ((a >> 1u8) & 1u8 == 1u8) == (a & 0x02u8
        != 0) && ((a >> 2u8) & 1u8 == 1u8) == (a & 0x04u8 != 0) && ((a >> 3u8) & 1u8 == 1u8) == (a
        & 0x08u8 != 0) && ((a >> 4u8) & 1u8 == 1u8) == (a & 0x10u8 != 0) && ((a >> 5u8) & 1u8 == 1u8)
        == (a & 0x20u8 != 0) && ((a >> 6u8) & 1u8 == 1u8) == (a & 0x40u8 != 0) && ((a >> 7u8) & 1u8
        == 1u8) == (a & 0x80u8 != 0)) by (bit_vector);
    assert(((b >> 0u8) & 1u8 == 1u8) == (b & 0x01u8 != 0) && ((b >> 1u8) & 1u8 == 1u8) == (b & 0x02u8
        != 0) && ((b >> 2u8) & 1u8 == 1u8) == (b & 0x04u8 != 0) && ((b >> 3u8) & 1u8 == 1u8) == (b
        & 0x08u8 != 0)) by (bit_vector);
}

} // verus!

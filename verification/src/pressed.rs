use vstd::prelude::*;

use crate::buttons::Button;

verus! {

/// The keys currently held down, in the order they went down.
#[verifier::external_body]
pub struct PressedButtons {
    buttons: heapless::Vec<Button, 12>,
}

/// The keys held, in the order they went down.
pub uninterp spec fn pressed_contents(p: PressedButtons) -> Seq<Button>;

/// `i` is the first position of `b`.
pub open spec fn is_first_position(s: Seq<Button>, b: Button, i: int) -> bool {
    &&& 0 <= i < s.len()
    &&& s[i] == b
    &&& forall|j: int| 0 <= j < i ==> s[j] != b
}

/// The keys held after a key event: a key going down is added at the end; a key coming up
/// loses its first occurrence, if it was held.
pub open spec fn after_key_event(s: Seq<Button>, b: Button, was_pressed: bool) -> Seq<Button> {
    if was_pressed {
        if s.contains(b) {
            s.remove(choose|i: int| is_first_position(s, b, i))
        } else {
            s
        }
    } else {
        s.push(b)
    }
}

impl PressedButtons {
    /// An empty list; calls `heapless::Vec::new`.
    #[verifier::external_body]
    pub(crate) fn empty() -> (p: PressedButtons)
        ensures
            pressed_contents(p) == Seq::<Button>::empty(),
    {
        PressedButtons { buttons: heapless::Vec::new() }
    }

    /// Number of keys held; calls `heapless::Vec::len`, which is at most the capacity of 12.
    #[verifier::external_body]
    pub(crate) fn count(&self) -> (r: usize)
        ensures
            r == pressed_contents(*self).len(),
            r <= Button::COUNT,
    {
        self.buttons.len()
    }

    /// The key at a position; indexes the `heapless::Vec`.
    #[verifier::external_body]
    pub(crate) fn at(&self, i: usize) -> (r: Button)
        requires
            i < pressed_contents(*self).len(),
        ensures
            r == pressed_contents(*self)[i as int],
    {
        self.buttons[i]
    }

    /// Appends a key if there is room; calls `heapless::Vec::push`, which hands the key back
    /// when 12 are held.
    #[verifier::external_body]
    pub(crate) fn push(&mut self, b: Button) -> (r: Result<(), Button>)
        ensures
            pressed_contents(*old(self)).len() < Button::COUNT ==> r is Ok,
            pressed_contents(*old(self)).len() < Button::COUNT ==> pressed_contents(*final(self))
                == pressed_contents(*old(self)).push(b),
            pressed_contents(*old(self)).len() >= Button::COUNT ==> (r matches Err(back) && back
                == b),
            pressed_contents(*old(self)).len() >= Button::COUNT ==> pressed_contents(*final(self))
                == pressed_contents(*old(self)),
    {
        self.buttons.push(b)
    }

    /// Removes the key at a position, shifting the later ones down; calls
    /// `heapless::Vec::remove`, which panics on a position past the end.
    #[verifier::external_body]
    pub(crate) fn remove_at(&mut self, i: usize) -> (r: Button)
        requires
            i < pressed_contents(*old(self)).len(),
        ensures
            r == pressed_contents(*old(self))[i as int],
            pressed_contents(*final(self)) == pressed_contents(*old(self)).remove(i as int),
    {
        self.buttons.remove(i)
    }

    /// No key held.
    pub fn new() -> (p: PressedButtons)
        ensures
            pressed_contents(p) == Seq::<Button>::empty(),
    {
        PressedButtons::empty()
    }

    /// Number of keys held.
    pub fn len(&self) -> (r: usize)
        ensures
            r == pressed_contents(*self).len(),
            r <= Button::COUNT,
    {
        self.count()
    }

    /// The key held at a position.
    pub fn get(&self, i: usize) -> (r: Button)
        requires
            i < pressed_contents(*self).len(),
        ensures
            r == pressed_contents(*self)[i as int],
    {
        self.at(i)
    }

    /// First position of a key, if it is held.
    pub fn position(&self, b: Button) -> (r: Option<usize>)
        ensures
            match r {
                Some(i) => is_first_position(pressed_contents(*self), b, i as int),
                None => !pressed_contents(*self).contains(b),
            },
    {
        let n = self.count();
        let mut i: usize = 0;
        while i < n
            invariant
                n == pressed_contents(*self).len(),
                i <= n,
                forall|j: int| 0 <= j < i ==> pressed_contents(*self)[j] != b,
            decreases n - i,
        {
            if self.at(i) == b {
                return Some(i);
            }
            i = i + 1;
        }
        None
    }

    /// Records a key event: a key going down (`was_pressed` false) is added, a key coming up
    /// (`was_pressed` true) is removed. A key can only go down while fewer than 12 are held.
    pub fn record(&mut self, b: Button, was_pressed: bool)
        requires
            !was_pressed ==> pressed_contents(*old(self)).len() < Button::COUNT,
        ensures
            pressed_contents(*final(self)) == after_key_event(pressed_contents(*old(self)), b, was_pressed),
    {
        let ghost s = pressed_contents(*self);
        if was_pressed {
            match self.position(b) {
                Some(i) => {
                    proof {
                        assert(s.contains(b)) by {
                            assert(s[i as int] == b);
                        }
                        let c = choose|c: int| is_first_position(s, b, c);
                        assert(is_first_position(s, b, c));
                        assert(c == i as int) by {
                            if c < i as int {
                                assert(s[c] != b);
                            }
                            if c > i as int {
                                assert(s[i as int] != b);
                            }
                        }
                    }
                    self.remove_at(i);
                },
                None => {},
            }
        } else {
            let _ = self.push(b);
        }
    }
}

/// Pressing a key that is not held and releasing it again leaves the held keys as they were.
pub proof fn lemma_press_release(s: Seq<Button>, b: Button)
    requires
        !s.contains(b),
    ensures
        after_key_event(after_key_event(s, b, false), b, true) == s,
{
    let t = s.push(b);
    assert(t.contains(b)) by {
        assert(t[s.len() as int] == b);
    }
    assert(is_first_position(t, b, s.len() as int));
    let c = choose|c: int| is_first_position(t, b, c);
    assert(c == s.len()) by {
        if c < s.len() {
            assert(s[c] == b);
            assert(s.contains(b));
        }
    }
    assert(t.remove(s.len() as int) =~= s);
}

/// The keys held after a stream of key events, starting with none held; an event is a key and
/// whether it was down before (so `true` is a release).
pub open spec fn held_after(events: Seq<(Button, bool)>) -> Seq<Button>
    decreases events.len(),
{
    if events.len() == 0 {
        Seq::empty()
    } else {
        after_key_event(held_after(events.drop_last()), events.last().0, events.last().1)
    }
}

/// Number of events of key `b` in a stream.
pub open spec fn events_of(events: Seq<(Button, bool)>, b: Button) -> nat
    decreases events.len(),
{
    if events.len() == 0 {
        0
    } else {
        events_of(events.drop_last(), b) + if events.last().0 == b {
            1nat
        } else {
            0nat
        }
    }
}

/// Each key's events alternate, starting with a press: an event is a release exactly when an
/// odd number of events of its key came before it.
pub open spec fn alternating(events: Seq<(Button, bool)>) -> bool {
    forall|i: int|
        0 <= i < events.len() ==> #[trigger] events[i].1 == (events_of(events.take(i), events[i].0) % 2
            == 1)
}

proof fn lemma_all_buttons_set()
    ensures
        crate::buttons::all_buttons().no_duplicates(),
        crate::buttons::all_buttons().to_set().len() == Button::COUNT,
        forall|b: Button| #[trigger] crate::buttons::all_buttons().to_set().contains(b),
{
    let all = crate::buttons::all_buttons();
    assert(all.no_duplicates());
    all.unique_seq_to_set();
    assert forall|b: Button| #[trigger] all.to_set().contains(b) by {
        let i: int = match b {
            Button::Btn0 => 0,
            Button::Btn1 => 1,
            Button::Btn2 => 2,
            Button::Btn3 => 3,
            Button::Btn4 => 4,
            Button::Btn5 => 5,
            Button::Btn6 => 6,
            Button::Btn7 => 7,
            Button::Btn8 => 8,
            Button::Btn9 => 9,
            Button::BtnYes => 10,
            Button::BtnNo => 11,
        };
        assert(all[i] == b);
        assert(all.contains(b));
    }
}

/// Keys held without repetition are at most all twelve, and fewer when one key is missing.
pub proof fn lemma_distinct_keys_fit(s: Seq<Button>, b: Button)
    requires
        s.no_duplicates(),
    ensures
        s.len() <= Button::COUNT,
        !s.contains(b) ==> s.len() < Button::COUNT,
{
    let all = crate::buttons::all_buttons().to_set();
    lemma_all_buttons_set();
    s.unique_seq_to_set();
    vstd::seq_lib::seq_to_set_is_finite(crate::buttons::all_buttons());
    vstd::set_lib::lemma_len_subset(s.to_set(), all);
    if !s.contains(b) {
        assert(s.to_set().subset_of(all.remove(b)));
        vstd::set_lib::lemma_len_subset(s.to_set(), all.remove(b));
    }
}

/// A held key has a first position.
pub proof fn lemma_first_position_exists(s: Seq<Button>, b: Button)
    requires
        s.contains(b),
    ensures
        exists|i: int| is_first_position(s, b, i),
    decreases s.len(),
{
    if s[0] == b {
        assert(is_first_position(s, b, 0));
    } else {
        let t = s.drop_first();
        let k = choose|k: int| 0 <= k < s.len() && s[k] == b;
        assert(t[k - 1] == b);
        lemma_first_position_exists(t, b);
        let j = choose|j: int| is_first_position(t, b, j);
        assert forall|g: int| 0 <= g < j + 1 implies s[g] != b by {
            if g > 0 {
                assert(s[g] == t[g - 1]);
            }
        }
        assert(s[j + 1] == t[j]);
        assert(is_first_position(s, b, j + 1));
    }
}

/// In a stream where each key's events alternate starting with a press, the held list holds
/// exactly the keys with an odd number of events, each once, so at most twelve.
pub proof fn lemma_alternating_events(events: Seq<(Button, bool)>)
    requires
        alternating(events),
    ensures
        held_after(events).no_duplicates(),
        held_after(events).len() <= Button::COUNT,
        forall|b: Button| #[trigger] held_after(events).contains(b) <==> events_of(events, b) % 2 == 1,
    decreases events.len(),
{
    let h = held_after(events);
    if events.len() > 0 {
        let p = events.drop_last();
        assert forall|i: int| 0 <= i < p.len() implies #[trigger] p[i].1 == (events_of(p.take(i), p[i].0)
            % 2 == 1) by {
            assert(p.take(i) =~= events.take(i));
            assert(events[i].1 == (events_of(events.take(i), events[i].0) % 2 == 1));
        }
        lemma_alternating_events(p);
        let hp = held_after(p);
        let b = events.last().0;
        let w = events.last().1;
        assert(events.take(events.len() - 1) =~= p);
        assert(events[events.len() - 1].1 == (events_of(events.take(events.len() - 1), b) % 2 == 1));
        assert(w == hp.contains(b));
        if !w {
            assert(h == hp.push(b));
            assert forall|x: int, y: int| 0 <= x < h.len() && 0 <= y < h.len() && x != y implies h[x]
                != h[y] by {
                if x == hp.len() {
                    assert(hp[y] == h[y]);
                } else if y == hp.len() {
                    assert(hp[x] == h[x]);
                }
            }
            assert forall|c: Button| #[trigger] h.contains(c) <==> events_of(events, c) % 2 == 1 by {
                if h.contains(c) && c != b {
                    let k = choose|k: int| 0 <= k < h.len() && h[k] == c;
                    assert(hp[k] == c);
                }
                if hp.contains(c) {
                    let k = choose|k: int| 0 <= k < hp.len() && hp[k] == c;
                    assert(h[k] == c);
                }
                if c == b {
                    assert(h[hp.len() as int] == b);
                }
            }
        } else {
            lemma_first_position_exists(hp, b);
            let i = choose|i: int| is_first_position(hp, b, i);
            assert(is_first_position(hp, b, i));
            assert(h == hp.remove(i));
            assert forall|x: int, y: int| 0 <= x < h.len() && 0 <= y < h.len() && x != y implies h[x]
                != h[y] by {
                let ox = if x < i { x } else { x + 1 };
                let oy = if y < i { y } else { y + 1 };
                assert(h[x] == hp[ox]);
                assert(h[y] == hp[oy]);
            }
            assert forall|c: Button| #[trigger] h.contains(c) <==> events_of(events, c) % 2 == 1 by {
                if h.contains(c) {
                    let k = choose|k: int| 0 <= k < h.len() && h[k] == c;
                    if k < i {
                        assert(hp[k] == c);
                    } else {
                        assert(hp[k + 1] == c);
                    }
                    if c == b {
                        if k < i {
                            assert(hp[k] == hp[i]);
                        } else {
                            assert(hp[k + 1] == hp[i]);
                        }
                    }
                }
                if hp.contains(c) && c != b {
                    let k = choose|k: int| 0 <= k < hp.len() && hp[k] == c;
                    if k < i {
                        assert(h[k] == c);
                    } else {
                        assert(k != i);
                        assert(h[k - 1] == c);
                    }
                }
            }
        }
        lemma_distinct_keys_fit(h, b);
    }
}

/// In a stream where each key's events alternate starting with a press, every press arrives
/// while fewer than twelve keys are held, so there is always room for the key going down.
pub proof fn lemma_alternating_press_fits(events: Seq<(Button, bool)>, b: Button)
    requires
        alternating(events.push((b, false))),
    ensures
        held_after(events).len() < Button::COUNT,
{
    let e = events.push((b, false));
    assert forall|i: int| 0 <= i < events.len() implies #[trigger] events[i].1 == (events_of(
        events.take(i),
        events[i].0,
    ) % 2 == 1) by {
        assert(e.take(i) =~= events.take(i));
        assert(e[i].1 == (events_of(e.take(i), e[i].0) % 2 == 1));
    }
    lemma_alternating_events(events);
    assert(e.take(events.len() as int) =~= events);
    assert(e[events.len() as int].1 == (events_of(e.take(events.len() as int), b) % 2 == 1));
    lemma_distinct_keys_fit(held_after(events), b);
}

/// Recording one more event takes the held list of a stream to that of the longer stream, so a
/// list kept by `record` from no keys held is always `held_after` of the events recorded.
pub proof fn lemma_held_after_step(events: Seq<(Button, bool)>, e: (Button, bool))
    ensures
        held_after(events.push(e)) == after_key_event(held_after(events), e.0, e.1),
{
    assert(events.push(e).drop_last() =~= events);
}

} // verus!

//! Keyboard input: HID boot-protocol reports, press-edge detection, the
//! PS/2 scan-code table, and the ring buffer of code-points for user mode.
use vstd::prelude::*;

verus! {

pub const KEY_RIGHT: u8 = 0x80;
pub const KEY_LEFT: u8 = 0x81;
pub const KEY_DOWN: u8 = 0x82;
pub const KEY_UP: u8 = 0x83;
pub const KEY_ENTER: u8 = 0x0A;
pub const KEY_BACKSPACE: u8 = 0x08;

/// Code-point of HID usage `k` (0 when the key has none).
pub open spec fn hid_ascii(k: u8) -> u8 {
    if 0x04 <= k <= 0x1D {
        (k - 0x04 + 0x61) as u8
    } else if 0x1E <= k <= 0x26 {
        (k - 0x1E + 0x31) as u8
    } else {
        match k {
            0x27u8 => 0x30u8,
            0x28u8 => 0x0Au8,
            0x2Au8 => 0x08u8,
            0x2Bu8 => 0x09u8,
            0x2Cu8 => 0x20u8,
            0x2Du8 => 0x2Du8,
            0x2Eu8 => 0x3Du8,
            0x2Fu8 => 0x5Bu8,
            0x30u8 => 0x5Du8,
            0x31u8 => 0x5Cu8,
            0x33u8 => 0x3Bu8,
            0x34u8 => 0x27u8,
            0x36u8 => 0x2Cu8,
            0x37u8 => 0x2Eu8,
            0x38u8 => 0x2Fu8,
            0x4Fu8 => KEY_RIGHT,
            0x50u8 => KEY_LEFT,
            0x51u8 => KEY_DOWN,
            0x52u8 => KEY_UP,
            _ => 0u8,
        }
    }
}

/// Translates a HID usage to its code-point: letters, digits, Enter,
/// Backspace, Tab, Space, punctuation, and the four arrows as
/// `0x80..0x83`; 0 for every other usage.
pub fn hid_usage_to_ascii(k: u8) -> (r: u8)
    ensures
        r == hid_ascii(k),
{
    if 0x04 <= k && k <= 0x1D {
        k - 0x04 + 0x61
    } else if 0x1E <= k && k <= 0x26 {
        k - 0x1E + 0x31
    } else {
        match k {
            0x27 => 0x30,
            0x28 => 0x0A,
            0x2A => 0x08,
            0x2B => 0x09,
            0x2C => 0x20,
            0x2D => 0x2D,
            0x2E => 0x3D,
            0x2F => 0x5B,
            0x30 => 0x5D,
            0x31 => 0x5C,
            0x33 => 0x3B,
            0x34 => 0x27,
            0x36 => 0x2C,
            0x37 => 0x2E,
            0x38 => 0x2F,
            0x4F => KEY_RIGHT,
            0x50 => KEY_LEFT,
            0x51 => KEY_DOWN,
            0x52 => KEY_UP,
            _ => 0,
        }
    }
}

/// Whether key `k` is among the six keycodes (bytes 2..8) of report `r`.
pub open spec fn held(r: Seq<u8>, k: u8) -> bool {
    exists|j: int| 2 <= j < 8 && r[j] == k
}

/// Whether byte `i` of `cur` is a fresh press relative to `prev`.
pub open spec fn fresh_at(prev: Seq<u8>, cur: Seq<u8>, i: int) -> bool {
    cur[i] != 0 && !held(prev, cur[i])
}

/// Code-points emitted for keycode bytes `i..8` of `cur`.
pub open spec fn presses_from(prev: Seq<u8>, cur: Seq<u8>, i: int) -> Seq<u8>
    decreases 8 - i,
{
    if i < 2 || i >= 8 {
        Seq::empty()
    } else {
        let rest = presses_from(prev, cur, i + 1);
        if fresh_at(prev, cur, i) && hid_ascii(cur[i]) != 0 {
            seq![hid_ascii(cur[i])] + rest
        } else {
            rest
        }
    }
}

/// Code-points emitted when report `cur` follows report `prev`, in keycode
/// order.
pub open spec fn presses(prev: Seq<u8>, cur: Seq<u8>) -> Seq<u8> {
    presses_from(prev, cur, 2)
}

/// Number of positions `i..8` of `cur` at which key `k` is emitted.
pub open spec fn emissions_from(prev: Seq<u8>, cur: Seq<u8>, k: u8, i: int) -> nat
    decreases 8 - i,
{
    if i < 2 || i >= 8 {
        0
    } else {
        (if cur[i] == k && fresh_at(prev, cur, i) && hid_ascii(k) != 0 {
            1nat
        } else {
            0nat
        }) + emissions_from(prev, cur, k, i + 1)
    }
}

/// Number of keycode positions of `r` from `i` on that hold `k`.
pub open spec fn occurrences_from(r: Seq<u8>, k: u8, i: int) -> nat
    decreases 8 - i,
{
    if i < 2 || i >= 8 {
        0
    } else {
        (if r[i] == k {
            1nat
        } else {
            0nat
        }) + occurrences_from(r, k, i + 1)
    }
}

proof fn lemma_presses_from_set(prev: Seq<u8>, cur: Seq<u8>, i: int)
    requires
        2 <= i <= 8,
        cur.len() == 8,
    ensures
        forall|c: u8|
            presses_from(prev, cur, i).contains(c) <==> exists|j: int|
                i <= j < 8 && fresh_at(prev, cur, j) && hid_ascii(cur[j]) != 0 && hid_ascii(
                    #[trigger] cur[j],
                ) == c,
    decreases 8 - i,
{
    if i < 8 {
        lemma_presses_from_set(prev, cur, i + 1);
        let rest = presses_from(prev, cur, i + 1);
        assert forall|c: u8|
            presses_from(prev, cur, i).contains(c) <==> exists|j: int|
                i <= j < 8 && fresh_at(prev, cur, j) && hid_ascii(cur[j]) != 0 && hid_ascii(
                    #[trigger] cur[j],
                ) == c by {
            if fresh_at(prev, cur, i) && hid_ascii(cur[i]) != 0 {
                let s = seq![hid_ascii(cur[i])] + rest;
                assert(s[0] == hid_ascii(cur[i]));
                if rest.contains(c) {
                    let m = choose|m: int| 0 <= m < rest.len() && rest[m] == c;
                    assert(s[m + 1] == c);
                }
                if s.contains(c) {
                    let m = choose|m: int| 0 <= m < s.len() && s[m] == c;
                    if m > 0 {
                        assert(rest[m - 1] == c);
                    }
                }
            }
        }
    }
}

/// The code-points emitted for a pair of reports are exactly the
/// translations of the keys held now but not before, leaving out keys with
/// no code-point.
pub proof fn lemma_presses_are_fresh_keys(prev: Seq<u8>, cur: Seq<u8>)
    requires
        cur.len() == 8,
    ensures
        presses(prev, cur).to_set() == Set::new(
            |c: u8|
                exists|j: int|
                    2 <= j < 8 && cur[j] != 0 && !held(prev, cur[j]) && hid_ascii(cur[j]) != 0
                        && hid_ascii(#[trigger] cur[j]) == c,
        ),
{
    lemma_presses_from_set(prev, cur, 2);
    assert(presses(prev, cur).to_set() =~= Set::new(
        |c: u8|
            exists|j: int|
                2 <= j < 8 && cur[j] != 0 && !held(prev, cur[j]) && hid_ascii(cur[j]) != 0
                    && hid_ascii(#[trigger] cur[j]) == c,
    ));
}

proof fn lemma_emissions_first(r0: Seq<u8>, r1: Seq<u8>, k: u8, i: int)
    requires
        2 <= i <= 8,
        r1.len() == 8,
        k != 0,
        !held(r0, k),
        hid_ascii(k) != 0,
    ensures
        emissions_from(r0, r1, k, i) == occurrences_from(r1, k, i),
    decreases 8 - i,
{
    if i < 8 {
        lemma_emissions_first(r0, r1, k, i + 1);
    }
}

proof fn lemma_emissions_held(r1: Seq<u8>, r2: Seq<u8>, k: u8, i: int)
    requires
        2 <= i <= 8,
        held(r1, k),
    ensures
        emissions_from(r1, r2, k, i) == 0,
    decreases 8 - i,
{
    if i < 8 {
        lemma_emissions_held(r1, r2, k, i + 1);
    }
}

/// A key pressed in one report and still held in the next is emitted once,
/// for the report in which it appears, and not again while it is held.
pub proof fn lemma_held_key_emits_once(r0: Seq<u8>, r1: Seq<u8>, r2: Seq<u8>, k: u8)
    requires
        r1.len() == 8,
        r2.len() == 8,
        k != 0,
        hid_ascii(k) != 0,
        !held(r0, k),
        occurrences_from(r1, k, 2) == 1,
        held(r2, k),
    ensures
        emissions_from(r0, r1, k, 2) == 1,
        emissions_from(r1, r2, k, 2) == 0,
{
    lemma_emissions_first(r0, r1, k, 2);
    lemma_occurrence_held(r1, k, 2);
    lemma_emissions_held(r1, r2, k, 2);
}

proof fn lemma_occurrence_held(r: Seq<u8>, k: u8, i: int)
    requires
        2 <= i <= 8,
        occurrences_from(r, k, i) > 0,
    ensures
        held(r, k),
    decreases 8 - i,
{
    if i < 8 {
        if r[i] == k {
            assert(2 <= i < 8 && r[i] == k);
        } else {
            lemma_occurrence_held(r, k, i + 1);
        }
    }
}

/// Whether `k` is among the keycodes of `report`.
fn report_holds(report: &[u8; 8], k: u8) -> (r: bool)
    ensures
        r == held(report@, k),
{
    let mut j: usize = 2;
    while j < 8
        invariant
            2 <= j <= 8,
            forall|m: int| 2 <= m < j ==> report@[m] != k,
        decreases 8 - j,
    {
        if report[j] == k {
            return true;
        }
        j = j + 1;
    }
    false
}

/// Code-points of the keys pressed in `cur` that were not held in `prev`,
/// in keycode order.
pub fn new_presses(prev: &[u8; 8], cur: &[u8; 8]) -> (r: Vec<u8>)
    ensures
        r@ == presses(prev@, cur@),
{
    let mut out: Vec<u8> = Vec::new();
    let mut i: usize = 8;
    while i > 2
        invariant
            2 <= i <= 8,
            out@ == presses_from(prev@, cur@, i as int),
        decreases i,
    {
        i = i - 1;
        let key = cur[i];
        if key != 0 && !report_holds(prev, key) {
            let ascii = hid_usage_to_ascii(key);
            if ascii != 0 {
                let mut v: Vec<u8> = Vec::new();
                v.push(ascii);
                v.append(&mut out);
                out = v;
            }
        }
    }
    out
}

/// Number of slots in a key buffer; one stays empty, so it holds 255 keys.
pub const KEY_BUFFER_SIZE: usize = 256;

/// A ring buffer of code-points: pushed at the head, popped at the tail.
/// A push onto a full buffer is dropped.
pub struct KeyBuffer {
    buffer: Vec<u8>,
    head: usize,
    tail: usize,
}

impl View for KeyBuffer {
    type V = Seq<u8>;

    closed spec fn view(&self) -> Seq<u8> {
        let len = ((self.head + KEY_BUFFER_SIZE - self.tail) % KEY_BUFFER_SIZE as int) as nat;
        Seq::new(len, |i: int| self.buffer@[(self.tail + i) % KEY_BUFFER_SIZE as int])
    }
}

impl KeyBuffer {
    pub closed spec fn wf(&self) -> bool {
        &&& self.buffer@.len() == KEY_BUFFER_SIZE
        &&& self.head < KEY_BUFFER_SIZE
        &&& self.tail < KEY_BUFFER_SIZE
    }

    pub fn new() -> (r: Self)
        ensures
            r.wf(),
            r@ == Seq::<u8>::empty(),
    {
        let mut buffer: Vec<u8> = Vec::new();
        let mut i: usize = 0;
        while i < KEY_BUFFER_SIZE
            invariant
                i <= KEY_BUFFER_SIZE,
                buffer@.len() == i,
            decreases KEY_BUFFER_SIZE - i,
        {
            buffer.push(0);
            i = i + 1;
        }
        let r = KeyBuffer { buffer, head: 0, tail: 0 };
        assert(r@ =~= Seq::<u8>::empty());
        r
    }

    /// Appends `key` unless the buffer already holds 255 keys.
    pub fn push(&mut self, key: u8)
        requires
            old(self).wf(),
        ensures
            final(self).wf(),
            old(self)@.len() < KEY_BUFFER_SIZE - 1 ==> final(self)@ == old(self)@.push(key),
            old(self)@.len() >= KEY_BUFFER_SIZE - 1 ==> final(self)@ == old(self)@,
            old(self)@.len() <= KEY_BUFFER_SIZE - 1,
    {
        let next_head = (self.head + 1) % KEY_BUFFER_SIZE;
        if next_head != self.tail {
            let ghost before = self@;
            self.buffer.set(self.head, key);
            self.head = next_head;
            assert(self@ =~= before.push(key));
        }
    }

    /// Takes the oldest key, if any.
    pub fn pop(&mut self) -> (r: Option<u8>)
        requires
            old(self).wf(),
        ensures
            final(self).wf(),
            old(self)@.len() == 0 ==> r is None && final(self)@ == old(self)@,
            old(self)@.len() > 0 ==> r == Some(old(self)@[0]) && final(self)@ == old(self)@.drop_first(),
    {
        if self.head == self.tail {
            return None;
        }
        let ghost before = self@;
        let key = self.buffer[self.tail];
        self.tail = (self.tail + 1) % KEY_BUFFER_SIZE;
        assert(self@ =~= before.drop_first());
        Some(key)
    }
}

/// ASCII of PS/2 set-1 scan code `s` (0 when it has none).
pub open spec fn scan_code_ascii(s: u8) -> u8 {
    let table = seq![
        0u8, 27, 0x31, 0x32, 0x33, 0x34, 0x35, 0x36, 0x37, 0x38, 0x39, 0x30, 0x2D, 0x3D, 0x08, 0x09,
        0x71, 0x77, 0x65, 0x72, 0x74, 0x79, 0x75, 0x69, 0x6F, 0x70, 0x5B, 0x5D, 0x0A, 0, 0x61,
        0x73, 0x64, 0x66, 0x67, 0x68, 0x6A, 0x6B, 0x6C, 0x3B, 0x27, 0x60, 0, 0x5C, 0x7A, 0x78,
        0x63, 0x76, 0x62, 0x6E, 0x6D, 0x2C, 0x2E, 0x2F, 0, 0x2A, 0, 0x20, 0, 0, 0, 0, 0, 0, 0, 0,
        0, 0, 0, 0, 0, 0, 0, 0x2D, 0, 0, 0, 0x2B, 0, 0, 0, 0, 0, 0, 0, 0, 0, 0, 0, 0,
    ];
    if (s as int) < table.len() {
        table[s as int]
    } else {
        0
    }
}

/// The key a PS/2 scan code stands for: `None` for a release (bit 7 set)
/// and for codes with no character.
pub fn translate_scan_code(s: u8) -> (r: Option<u8>)
    ensures
        s & 0x80 != 0 ==> r is None,
        s & 0x80 == 0 ==> (r == if scan_code_ascii(s) != 0 {
            Some(scan_code_ascii(s))
        } else {
            None::<u8>
        }),
{
    if s & 0x80 != 0 {
        return None;
    }
    let table: [u8; 90] = [
        0, 27, 0x31, 0x32, 0x33, 0x34, 0x35, 0x36, 0x37, 0x38, 0x39, 0x30, 0x2D, 0x3D, 0x08, 0x09,
        0x71, 0x77, 0x65, 0x72, 0x74, 0x79, 0x75, 0x69, 0x6F, 0x70, 0x5B, 0x5D, 0x0A, 0, 0x61,
        0x73, 0x64, 0x66, 0x67, 0x68, 0x6A, 0x6B, 0x6C, 0x3B, 0x27, 0x60, 0, 0x5C, 0x7A, 0x78,
        0x63, 0x76, 0x62, 0x6E, 0x6D, 0x2C, 0x2E, 0x2F, 0, 0x2A, 0, 0x20, 0, 0, 0, 0, 0, 0, 0, 0,
        0, 0, 0, 0, 0, 0, 0, 0x2D, 0, 0, 0, 0x2B, 0, 0, 0, 0, 0, 0, 0, 0, 0, 0, 0, 0,
    ];
    assert(table@ =~= seq![
        0u8, 27, 0x31, 0x32, 0x33, 0x34, 0x35, 0x36, 0x37, 0x38, 0x39, 0x30, 0x2D, 0x3D, 0x08, 0x09,
        0x71, 0x77, 0x65, 0x72, 0x74, 0x79, 0x75, 0x69, 0x6F, 0x70, 0x5B, 0x5D, 0x0A, 0, 0x61,
        0x73, 0x64, 0x66, 0x67, 0x68, 0x6A, 0x6B, 0x6C, 0x3B, 0x27, 0x60, 0, 0x5C, 0x7A, 0x78,
        0x63, 0x76, 0x62, 0x6E, 0x6D, 0x2C, 0x2E, 0x2F, 0, 0x2A, 0, 0x20, 0, 0, 0, 0, 0, 0, 0, 0,
        0, 0, 0, 0, 0, 0, 0, 0x2D, 0, 0, 0, 0x2B, 0, 0, 0, 0, 0, 0, 0, 0, 0, 0, 0, 0,
    ]);
    if (s as usize) < 90 {
        let a = table[s as usize];
        if a != 0 {
            return Some(a);
        }
    }
    None
}

} // verus!

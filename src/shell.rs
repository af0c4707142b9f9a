//! The user-mode shell's command history: the last `HISTORY_SIZE` lines,
//! each cut to `MAX_CMD_LEN` bytes.
use vstd::prelude::*;

verus! {

pub const MAX_CMD_LEN: usize = 64;
pub const HISTORY_SIZE: usize = 10;

pub struct Shell {
    history: Vec<Vec<u8>>,
    history_count: usize,
    history_start: usize,
}

/// A command as history keeps it.
pub open spec fn clipped(cmd: Seq<u8>) -> Seq<u8> {
    if cmd.len() > MAX_CMD_LEN {
        cmd.subrange(0, MAX_CMD_LEN as int)
    } else {
        cmd
    }
}

/// History after one more command: appended, the oldest dropped once full.
pub open spec fn remembered(h: Seq<Seq<u8>>, cmd: Seq<u8>) -> Seq<Seq<u8>> {
    if h.len() < HISTORY_SIZE {
        h.push(clipped(cmd))
    } else {
        h.drop_first().push(clipped(cmd))
    }
}

impl View for Shell {
    /// Stored commands, oldest first.
    type V = Seq<Seq<u8>>;

    closed spec fn view(&self) -> Seq<Seq<u8>> {
        Seq::new(
            self.history_count as nat,
            |i: int| self.history@[(self.history_start + i) % HISTORY_SIZE as int]@,
        )
    }
}

impl Shell {
    pub closed spec fn wf(&self) -> bool {
        &&& self.history@.len() == HISTORY_SIZE
        &&& self.history_count <= HISTORY_SIZE
        &&& self.history_start < HISTORY_SIZE
    }

    pub fn new() -> (r: Self)
        ensures
            r.wf(),
            r@ == Seq::<Seq<u8>>::empty(),
    {
        let mut history: Vec<Vec<u8>> = Vec::new();
        let mut i: usize = 0;
        while i < HISTORY_SIZE
            invariant
                i <= HISTORY_SIZE,
                history@.len() == i,
            decreases HISTORY_SIZE - i,
        {
            history.push(Vec::new());
            i = i + 1;
        }
        let r = Shell { history, history_count: 0, history_start: 0 };
        assert(r@ =~= Seq::<Seq<u8>>::empty());
        r
    }

    /// Number of stored commands.
    pub fn history_len(&self) -> (r: usize)
        requires
            self.wf(),
        ensures
            r == self@.len(),
    {
        self.history_count
    }

    /// Stores `cmd` (its first `MAX_CMD_LEN` bytes) as the newest command,
    /// dropping the oldest when history is full.
    pub fn add_history(&mut self, cmd: &[u8])
        requires
            old(self).wf(),
        ensures
            final(self).wf(),
            final(self)@ == remembered(old(self)@, cmd@),
    {
        let ghost before = self@;
        let idx = (self.history_start + self.history_count) % HISTORY_SIZE;
        let len = if cmd.len() > MAX_CMD_LEN {
            MAX_CMD_LEN
        } else {
            cmd.len()
        };
        let mut entry: Vec<u8> = Vec::new();
        let mut i: usize = 0;
        while i < len
            invariant
                i <= len <= cmd@.len(),
                len == clipped(cmd@).len(),
                entry@ == cmd@.subrange(0, i as int),
            decreases len - i,
        {
            entry.push(cmd[i]);
            i = i + 1;
        }
        assert(entry@ =~= clipped(cmd@));
        self.history.set(idx, entry);
        if self.history_count < HISTORY_SIZE {
            self.history_count = self.history_count + 1;
            assert(self@ =~= before.push(clipped(cmd@)));
        } else {
            self.history_start = (self.history_start + 1) % HISTORY_SIZE;
            assert(self@ =~= before.drop_first().push(clipped(cmd@)));
        }
    }

    /// The command `offset_from_newest` steps back from the newest (0 is the
    /// newest), if history holds that many.
    pub fn get_history(&self, offset_from_newest: usize) -> (r: Option<&Vec<u8>>)
        requires
            self.wf(),
        ensures
            offset_from_newest >= self@.len() ==> r is None,
            offset_from_newest < self@.len() ==> (r matches Some(v) && v@ == self@[self@.len() - 1
                - offset_from_newest]),
    {
        if offset_from_newest >= self.history_count {
            return None;
        }
        let end_idx = self.history_start + self.history_count;
        let target = (end_idx - 1 - offset_from_newest) % HISTORY_SIZE;
        Some(&self.history[target])
    }
}

pub const KEY_RIGHT: u8 = 0x80;
pub const KEY_LEFT: u8 = 0x81;
pub const KEY_DOWN: u8 = 0x82;
pub const KEY_UP: u8 = 0x83;
pub const KEY_ENTER: u8 = 0x0A;
pub const KEY_BACKSPACE: u8 = 0x08;

/// `n` copies of byte `b`.
pub open spec fn repeat(b: u8, n: int) -> Seq<u8> {
    Seq::new(if n < 0 { 0 } else { n as nat }, |i: int| b)
}

/// State of the line being edited.
pub struct EditorView {
    pub line: Seq<u8>,
    pub cursor: int,
    /// How far back in history the line comes from; -1 for a new line.
    pub history_offset: int,
}

/// Echo and state after the line is replaced by `new` (clipped): the old
/// text is wiped from the screen and the new one printed, cursor at its end.
pub open spec fn replace_effect(v: EditorView, new: Seq<u8>, offset: int) -> (EditorView, Seq<u8>) {
    let n = clipped(new);
    (
        EditorView { line: n, cursor: n.len() as int, history_offset: offset },
        repeat(KEY_BACKSPACE, v.cursor) + repeat(0x20, v.line.len() as int) + repeat(
            KEY_BACKSPACE,
            v.line.len() as int,
        ) + n,
    )
}

/// The effect of one key on the line: new state, bytes to echo, and whether
/// the line is finished.
pub open spec fn key_effect(v: EditorView, key: u8, h: Seq<Seq<u8>>) -> (EditorView, Seq<u8>, bool) {
    let len = v.line.len() as int;
    let c = v.cursor;
    if key == KEY_ENTER {
        (v, seq![0x0Au8], true)
    } else if key == KEY_LEFT {
        if c > 0 {
            (EditorView { cursor: c - 1, ..v }, seq![KEY_BACKSPACE], false)
        } else {
            (v, Seq::empty(), false)
        }
    } else if key == KEY_RIGHT {
        if c < len {
            (EditorView { cursor: c + 1, ..v }, seq![v.line[c]], false)
        } else {
            (v, Seq::empty(), false)
        }
    } else if key == KEY_UP {
        if v.history_offset + 1 < h.len() {
            let o = v.history_offset + 1;
            let (w, e) = replace_effect(v, h[h.len() - 1 - o], o);
            (w, e, false)
        } else {
            (v, Seq::empty(), false)
        }
    } else if key == KEY_DOWN {
        if v.history_offset > 0 {
            let o = v.history_offset - 1;
            let (w, e) = replace_effect(v, h[h.len() - 1 - o], o);
            (w, e, false)
        } else if v.history_offset == 0 {
            let (w, e) = replace_effect(v, Seq::empty(), -1);
            (w, e, false)
        } else {
            (v, Seq::empty(), false)
        }
    } else if key == KEY_BACKSPACE {
        if c > 0 {
            let line = v.line.remove(c - 1);
            (
                EditorView { line, cursor: c - 1, ..v },
                seq![KEY_BACKSPACE] + line.subrange(c - 1, len - 1) + seq![0x20u8] + repeat(
                    KEY_BACKSPACE,
                    len - c + 1,
                ),
                false,
            )
        } else {
            (v, Seq::empty(), false)
        }
    } else if 0x20 <= key <= 0x7E {
        if len < MAX_CMD_LEN {
            let line = v.line.insert(c, key);
            (
                EditorView { line, cursor: c + 1, ..v },
                line.subrange(c, len + 1) + repeat(KEY_BACKSPACE, len - c),
                false,
            )
        } else {
            (v, Seq::empty(), false)
        }
    } else {
        (v, Seq::empty(), false)
    }
}

/// The shell's line editor.
pub struct LineEditor {
    line: Vec<u8>,
    cursor: usize,
    history_offset: i64,
}

impl View for LineEditor {
    type V = EditorView;

    closed spec fn view(&self) -> EditorView {
        EditorView {
            line: self.line@,
            cursor: self.cursor as int,
            history_offset: self.history_offset as int,
        }
    }
}

fn push_repeat(out: &mut Vec<u8>, b: u8, n: usize)
    ensures
        final(out)@ == old(out)@ + repeat(b, n as int),
{
    let mut i: usize = 0;
    while i < n
        invariant
            i <= n,
            out@ == old(out)@ + repeat(b, i as int),
        decreases n - i,
    {
        out.push(b);
        i = i + 1;
        assert(out@ =~= old(out)@ + repeat(b, i as int));
    }
}

fn push_range(out: &mut Vec<u8>, src: &Vec<u8>, lo: usize, hi: usize)
    requires
        lo <= hi <= src@.len(),
    ensures
        final(out)@ == old(out)@ + src@.subrange(lo as int, hi as int),
{
    let mut i = lo;
    while i < hi
        invariant
            lo <= i <= hi <= src@.len(),
            out@ == old(out)@ + src@.subrange(lo as int, i as int),
        decreases hi - i,
    {
        out.push(src[i]);
        i = i + 1;
        assert(out@ =~= old(out)@ + src@.subrange(lo as int, i as int));
    }
}

impl LineEditor {
    pub open spec fn wf(&self) -> bool {
        &&& 0 <= self@.cursor <= self@.line.len() <= MAX_CMD_LEN
        &&& -1 <= self@.history_offset < HISTORY_SIZE
    }

    /// An empty new line.
    pub fn new() -> (r: Self)
        ensures
            r.wf(),
            r@ == (EditorView { line: Seq::empty(), cursor: 0, history_offset: -1 }),
    {
        LineEditor { line: Vec::new(), cursor: 0, history_offset: -1 }
    }

    /// The line so far.
    pub fn line(&self) -> (r: &Vec<u8>)
        ensures
            r@ == self@.line,
    {
        &self.line
    }

    fn replace_line(&mut self, new: &Vec<u8>, offset: i64, out: &mut Vec<u8>)
        requires
            old(self).wf(),
            -1 <= offset < HISTORY_SIZE,
        ensures
            final(self).wf(),
            (final(self)@, final(out)@) == ({
                let (w, e) = replace_effect(old(self)@, new@, offset as int);
                (w, old(out)@ + e)
            }),
    {
        push_repeat(out, KEY_BACKSPACE, self.cursor);
        push_repeat(out, 0x20, self.line.len());
        push_repeat(out, KEY_BACKSPACE, self.line.len());
        let n = if new.len() > MAX_CMD_LEN {
            MAX_CMD_LEN
        } else {
            new.len()
        };
        let mut line: Vec<u8> = Vec::new();
        push_range(&mut line, new, 0, n);
        assert(line@ =~= clipped(new@));
        push_range(out, &line, 0, n);
        assert(line@.subrange(0, n as int) =~= line@);
        self.line = line;
        self.cursor = n;
        self.history_offset = offset;
    }

    /// Applies one key: Enter finishes the line; Left and Right move the
    /// cursor; Up and Down step through `history`; Backspace deletes before
    /// the cursor; printable ASCII is inserted at the cursor while the line
    /// has room. Returns the bytes to echo and whether the line is done.
    pub fn handle_key(&mut self, key: u8, history: &Shell) -> (r: (Vec<u8>, bool))
        requires
            old(self).wf(),
            history.wf(),
            old(self)@.history_offset < history@.len(),
        ensures
            final(self).wf(),
            final(self)@.history_offset < history@.len(),
            (final(self)@, r.0@, r.1) == key_effect(old(self)@, key, history@),
    {
        let mut out: Vec<u8> = Vec::new();
        let len = self.line.len();
        let c = self.cursor;
        if key == KEY_ENTER {
            out.push(0x0A);
            assert(out@ =~= seq![0x0Au8]);
            return (out, true);
        }
        if key == KEY_LEFT {
            if c > 0 {
                self.cursor = c - 1;
                out.push(KEY_BACKSPACE);
                assert(out@ =~= seq![KEY_BACKSPACE]);
            }
            return (out, false);
        }
        if key == KEY_RIGHT {
            if c < len {
                out.push(self.line[c]);
                self.cursor = c + 1;
                assert(out@ =~= seq![old(self)@.line[c as int]]);
            }
            return (out, false);
        }
        if key == KEY_UP {
            if self.history_offset + 1 < history.history_len() as i64 {
                let o = self.history_offset + 1;
                let h = history.get_history(o as usize).unwrap();
                self.replace_line(h, o, &mut out);
                assert(out@ =~= Seq::<u8>::empty() + replace_effect(old(self)@, history@[history@.len() - 1 - o], o as int).1);
            }
            return (out, false);
        }
        if key == KEY_DOWN {
            if self.history_offset > 0 {
                let o = self.history_offset - 1;
                let h = history.get_history(o as usize).unwrap();
                self.replace_line(h, o, &mut out);
                assert(out@ =~= Seq::<u8>::empty() + replace_effect(old(self)@, history@[history@.len() - 1 - o], o as int).1);
            } else if self.history_offset == 0 {
                let empty: Vec<u8> = Vec::new();
                self.replace_line(&empty, -1, &mut out);
                assert(out@ =~= Seq::<u8>::empty() + replace_effect(old(self)@, Seq::empty(), -1).1);
            }
            return (out, false);
        }
        if key == KEY_BACKSPACE {
            if c > 0 {
                self.line.remove(c - 1);
                self.cursor = c - 1;
                out.push(KEY_BACKSPACE);
                push_range(&mut out, &self.line, c - 1, len - 1);
                out.push(0x20);
                push_repeat(&mut out, KEY_BACKSPACE, len - c + 1);
            }
            return (out, false);
        }
        if 0x20 <= key && key <= 0x7E {
            if len < MAX_CMD_LEN {
                self.line.insert(c, key);
                push_range(&mut out, &self.line, c, len + 1);
                self.cursor = c + 1;
                push_repeat(&mut out, KEY_BACKSPACE, len - c);
            }
            return (out, false);
        }
        (out, false)
    }
}

/// What a shell line asks for, by its first word.
#[derive(Clone, Copy, Debug, PartialEq, Eq, Structural)]
pub enum ShellCommand {
    Empty,
    Help,
    Echo,
    History,
    Shutdown,
    Clear,
    Asm,
    Unknown,
}

pub open spec fn command_of(word: Seq<u8>) -> ShellCommand {
    if word.len() == 0 {
        ShellCommand::Empty
    } else if word == seq![0x68u8, 0x65, 0x6C, 0x70] {
        ShellCommand::Help
    } else if word == seq![0x65u8, 0x63, 0x68, 0x6F] {
        ShellCommand::Echo
    } else if word == seq![0x68u8, 0x69, 0x73, 0x74, 0x6F, 0x72, 0x79] {
        ShellCommand::History
    } else if word == seq![0x73u8, 0x68, 0x75, 0x74, 0x64, 0x6F, 0x77, 0x6E] {
        ShellCommand::Shutdown
    } else if word == seq![0x63u8, 0x6C, 0x65, 0x61, 0x72] {
        ShellCommand::Clear
    } else if word == seq![0x61u8, 0x73, 0x6D] {
        ShellCommand::Asm
    } else {
        ShellCommand::Unknown
    }
}

fn same_bytes(a: &[u8], b: &[u8]) -> (r: bool)
    ensures
        r == (a@ == b@),
{
    if a.len() != b.len() {
        return false;
    }
    let mut i: usize = 0;
    while i < a.len()
        invariant
            a@.len() == b@.len(),
            i <= a@.len(),
            forall|k: int| 0 <= k < i ==> a@[k] == b@[k],
        decreases a@.len() - i,
    {
        if a[i] != b[i] {
            return false;
        }
        i = i + 1;
    }
    assert(a@ =~= b@);
    true
}

/// The command a line's first word (exact, lower case) names.
pub fn parse_command(word: &[u8]) -> (r: ShellCommand)
    ensures
        r == command_of(word@),
{
    if word.len() == 0 {
        ShellCommand::Empty
    } else if same_bytes(word, &[0x68, 0x65, 0x6C, 0x70]) {
        ShellCommand::Help
    } else if same_bytes(word, &[0x65, 0x63, 0x68, 0x6F]) {
        ShellCommand::Echo
    } else if same_bytes(word, &[0x68, 0x69, 0x73, 0x74, 0x6F, 0x72, 0x79]) {
        ShellCommand::History
    } else if same_bytes(word, &[0x73, 0x68, 0x75, 0x74, 0x64, 0x6F, 0x77, 0x6E]) {
        ShellCommand::Shutdown
    } else if same_bytes(word, &[0x63, 0x6C, 0x65, 0x61, 0x72]) {
        ShellCommand::Clear
    } else if same_bytes(word, &[0x61, 0x73, 0x6D]) {
        ShellCommand::Asm
    } else {
        ShellCommand::Unknown
    }
}

} // verus!

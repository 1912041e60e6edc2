//! The help popup's state and rules: visibility, selection movement,
//! normalizing the command list (hidden entries out, grouped and ordered,
//! duplicates dropped), and the rows of the rendered text. Drawing and key
//! decoding live outside the library.

use vstd::prelude::*;
use crate::order::{bytes_le, lemma_bytes_le_antisym, lemma_bytes_le_total, lemma_bytes_le_trans};

verus! {

/// What one command shows in the help list.
#[derive(Clone, PartialEq, Eq, Debug)]
pub struct CommandText {
    pub name: String,
    pub desc: String,
    pub group: String,
    pub hide_help: bool,
}

/// One command offered to the user.
#[derive(Clone, PartialEq, Eq, Debug)]
pub struct CommandInfo {
    pub text: CommandText,
    pub enabled: bool,
    pub quick_bar: bool,
}

/// What a key press means to the popup; the caller decodes the key.
#[derive(Copy, Clone, PartialEq, Eq, Structural, Debug)]
pub enum HelpEvent {
    ExitPopup,
    MoveDown,
    MoveUp,
    OpenHelp,
    Other,
}

/// Whether the popup consumed the event.
#[derive(Copy, Clone, PartialEq, Eq, Structural, Debug)]
pub enum EventState {
    Consumed,
    NotConsumed,
}

/// The bytes a text is ordered by.
pub open spec fn text_bytes(s: Seq<char>) -> Seq<u8> {
    vstd::utf8::encode_utf8(s)
}

/// The key a command is ordered and deduplicated by: group first, then
/// name, then description.
pub open spec fn text_key(t: CommandText) -> (Seq<u8>, Seq<u8>, Seq<u8>) {
    (text_bytes(t.group@), text_bytes(t.name@), text_bytes(t.desc@))
}

/// Lexicographic order on command keys.
pub open spec fn key_le(a: (Seq<u8>, Seq<u8>, Seq<u8>), b: (Seq<u8>, Seq<u8>, Seq<u8>)) -> bool {
    if a.0 != b.0 {
        bytes_le(a.0, b.0)
    } else if a.1 != b.1 {
        bytes_le(a.1, b.1)
    } else {
        bytes_le(a.2, b.2)
    }
}

pub open spec fn key_lt(a: (Seq<u8>, Seq<u8>, Seq<u8>), b: (Seq<u8>, Seq<u8>, Seq<u8>)) -> bool {
    key_le(a, b) && a != b
}

proof fn lemma_key_le_total(a: (Seq<u8>, Seq<u8>, Seq<u8>), b: (Seq<u8>, Seq<u8>, Seq<u8>))
    ensures
        key_le(a, b) || key_le(b, a),
{
    lemma_bytes_le_total(a.0, b.0);
    lemma_bytes_le_total(a.1, b.1);
    lemma_bytes_le_total(a.2, b.2);
}

proof fn lemma_key_le_antisym(a: (Seq<u8>, Seq<u8>, Seq<u8>), b: (Seq<u8>, Seq<u8>, Seq<u8>))
    requires
        key_le(a, b),
        key_le(b, a),
    ensures
        a == b,
{
    if a.0 != b.0 {
        lemma_bytes_le_antisym(a.0, b.0);
    } else if a.1 != b.1 {
        lemma_bytes_le_antisym(a.1, b.1);
    } else {
        lemma_bytes_le_antisym(a.2, b.2);
        assert(a.0 =~= b.0 && a.1 =~= b.1 && a.2 =~= b.2);
    }
}

proof fn lemma_key_le_trans(
    a: (Seq<u8>, Seq<u8>, Seq<u8>),
    b: (Seq<u8>, Seq<u8>, Seq<u8>),
    c: (Seq<u8>, Seq<u8>, Seq<u8>),
)
    requires
        key_le(a, b),
        key_le(b, c),
    ensures
        key_le(a, c),
{
    lemma_bytes_le_total(a.0, a.0);
    lemma_bytes_le_total(b.0, b.0);
    assert(bytes_le(a.0, b.0));
    assert(bytes_le(b.0, c.0));
    lemma_bytes_le_trans(a.0, b.0, c.0);
    if a.0 == c.0 {
        if a.0 != b.0 {
            lemma_bytes_le_antisym(a.0, b.0);
        }
        assert(a.0 == b.0 && b.0 == c.0);
        lemma_bytes_le_total(a.1, a.1);
        lemma_bytes_le_total(b.1, b.1);
        assert(bytes_le(a.1, b.1));
        assert(bytes_le(b.1, c.1));
        lemma_bytes_le_trans(a.1, b.1, c.1);
        if a.1 == c.1 {
            if a.1 != b.1 {
                lemma_bytes_le_antisym(a.1, b.1);
            }
            assert(a.1 == b.1 && b.1 == c.1);
            lemma_bytes_le_trans(a.2, b.2, c.2);
        }
    }
}

/// Byte order on texts, executable form.
fn text_le(a: &String, b: &String) -> (r: bool)
    ensures
        r == bytes_le(text_bytes(a@), text_bytes(b@)),
{
    crate::order::slice_bytes_le(a.as_str().as_bytes(), b.as_str().as_bytes())
}

/// Whether two texts have the same ordering bytes.
fn text_bytes_eq(a: &String, b: &String) -> (r: bool)
    ensures
        r == (text_bytes(a@) == text_bytes(b@)),
{
    let le1 = text_le(a, b);
    let le2 = text_le(b, a);
    proof {
        if le1 && le2 {
            lemma_bytes_le_antisym(text_bytes(a@), text_bytes(b@));
        }
        if text_bytes(a@) == text_bytes(b@) {
            lemma_bytes_le_total(text_bytes(a@), text_bytes(a@));
        }
    }
    le1 && le2
}

/// Compares two command texts by their keys.
fn text_key_le(a: &CommandText, b: &CommandText) -> (r: bool)
    ensures
        r == key_le(text_key(*a), text_key(*b)),
{
    let group_eq = text_bytes_eq(&a.group, &b.group);
    if !group_eq {
        text_le(&a.group, &b.group)
    } else {
        let name_eq = text_bytes_eq(&a.name, &b.name);
        if !name_eq {
            text_le(&a.name, &b.name)
        } else {
            text_le(&a.desc, &b.desc)
        }
    }
}

/// The command list the popup shows: no hidden entries, grouped and
/// ordered by key, one entry per distinct key.
pub open spec fn cmds_sorted_unique(s: Seq<CommandInfo>) -> bool {
    forall|i: int, j: int|
        0 <= i < j < s.len() ==> key_lt(text_key(s[i].text), text_key(s[j].text))
}

/// Some entry of the list carries this key.
pub open spec fn key_represented(s: Seq<CommandInfo>, key: (Seq<u8>, Seq<u8>, Seq<u8>)) -> bool {
    exists|q: int| 0 <= q < s.len() && text_key((#[trigger] s[q]).text) == key
}

/// Whether two commands belong to the same group.
pub open spec fn same_group(a: CommandText, b: CommandText) -> bool {
    text_bytes(a.group@) == text_bytes(b.group@)
}

proof fn lemma_key_le_first(a: (Seq<u8>, Seq<u8>, Seq<u8>), b: (Seq<u8>, Seq<u8>, Seq<u8>))
    requires
        key_le(a, b),
    ensures
        bytes_le(a.0, b.0),
{
    if a.0 == b.0 {
        lemma_bytes_le_total(a.0, a.0);
    }
}

/// What the ordered unique list shows: every key once, each group's
/// entries contiguous, and names (then descriptions) ascending inside a
/// group.
proof fn lemma_sorted_unique_shape(s: Seq<CommandInfo>)
    requires
        cmds_sorted_unique(s),
    ensures
        forall|i: int, j: int|
            0 <= i < j < s.len() ==> text_key((#[trigger] s[i]).text) != text_key(
                (#[trigger] s[j]).text,
            ),
        forall|i: int, j: int, k: int|
            0 <= i < j < k < s.len() && same_group((#[trigger] s[i]).text, (#[trigger] s[k]).text)
                ==> same_group(s[i].text, (#[trigger] s[j]).text),
        forall|i: int, j: int|
            0 <= i < j < s.len() && same_group((#[trigger] s[i]).text, (#[trigger] s[j]).text)
                ==> key_le(text_key(s[i].text), text_key(s[j].text)),
{
    assert forall|i: int, j: int|
        0 <= i < j < s.len() implies text_key((#[trigger] s[i]).text) != text_key(
        (#[trigger] s[j]).text,
    ) by {
        assert(key_lt(text_key(s[i].text), text_key(s[j].text)));
    }
    assert forall|i: int, j: int|
        0 <= i < j < s.len() && same_group((#[trigger] s[i]).text, (#[trigger] s[j]).text)
            implies key_le(text_key(s[i].text), text_key(s[j].text)) by {
        assert(key_lt(text_key(s[i].text), text_key(s[j].text)));
    }
    assert forall|i: int, j: int, k: int|
        0 <= i < j < k < s.len() && same_group((#[trigger] s[i]).text, (#[trigger] s[k]).text)
            implies same_group(s[i].text, (#[trigger] s[j]).text) by {
        let gi = text_key(s[i].text).0;
        let gj = text_key(s[j].text).0;
        let gk = text_key(s[k].text).0;
        assert(key_lt(text_key(s[i].text), text_key(s[j].text)));
        assert(key_lt(text_key(s[j].text), text_key(s[k].text)));
        lemma_key_le_first(text_key(s[i].text), text_key(s[j].text));
        lemma_key_le_first(text_key(s[j].text), text_key(s[k].text));
        assert(gi == gk);
        lemma_bytes_le_antisym(gi, gj);
    }
}

/// One row of the rendered help text.
#[derive(Clone, PartialEq, Eq, Debug)]
pub enum HelpRow {
    /// a group heading
    Group(String),
    /// one command's name, and whether it is the selected one
    Command(String, bool),
    /// the selected command's description
    Desc(String),
}

/// Mathematical value of a row.
pub enum RowV {
    Group(Seq<char>),
    Command(Seq<char>, bool),
    Desc(Seq<char>),
}

pub open spec fn row_v(r: HelpRow) -> RowV {
    match r {
        HelpRow::Group(s) => RowV::Group(s@),
        HelpRow::Command(s, sel) => RowV::Command(s@, sel),
        HelpRow::Desc(s) => RowV::Desc(s@),
    }
}

/// The rows the first `n` commands produce: a heading whenever the group
/// changes, one command row each (marked when selected), and the selected
/// command's description right after it.
pub open spec fn rows_upto(cmds: Seq<CommandInfo>, sel: int, n: int) -> Seq<RowV>
    decreases n,
{
    if n <= 0 {
        Seq::empty()
    } else {
        let i = n - 1;
        let prev = rows_upto(cmds, sel, i);
        let header: Seq<RowV> = if i == 0 || cmds[i].text.group@ != cmds[i - 1].text.group@ {
            seq![RowV::Group(cmds[i].text.group@)]
        } else {
            Seq::empty()
        };
        let line = seq![RowV::Command(cmds[i].text.name@, i == sel)];
        let desc: Seq<RowV> = if i == sel {
            seq![RowV::Desc(cmds[i].text.desc@)]
        } else {
            Seq::empty()
        };
        prev + header + line + desc
    }
}

/// Where the selection lands after one step: up or down by one, saturating,
/// then clamped to the last command — unless the list is too long for the
/// selection's width, in which case it stays put.
pub open spec fn next_selection(cur: u16, inc: bool, len: nat) -> u16 {
    let stepped: u16 = if inc {
        if cur == 0xffff {
            0xffff
        } else {
            (cur + 1) as u16
        }
    } else {
        if cur == 0 {
            0
        } else {
            (cur - 1) as u16
        }
    };
    let top: nat = if len == 0 {
        0
    } else {
        (len - 1) as nat
    };
    if top <= 0xffff {
        if stepped <= top {
            stepped
        } else {
            top as u16
        }
    } else {
        cur
    }
}

/// The help popup: the commands it lists, whether it is open, and which
/// command is selected.
#[derive(Debug)]
pub struct HelpPopup {
    pub cmds: Vec<CommandInfo>,
    pub visible: bool,
    pub selection: u16,
}

impl HelpPopup {
    pub fn new() -> (r: Self)
        ensures
            r.cmds@.len() == 0,
            !r.visible,
            r.selection == 0,
    {
        Self { cmds: Vec::new(), visible: false, selection: 0 }
    }

    pub fn is_visible(&self) -> (r: bool)
        ensures
            r == self.visible,
    {
        self.visible
    }

    pub fn close(&mut self)
        ensures
            !final(self).visible,
            final(self).cmds@ == old(self).cmds@,
            final(self).selection == old(self).selection,
    {
        self.visible = false;
    }

    pub fn show(&mut self)
        ensures
            final(self).visible,
            final(self).cmds@ == old(self).cmds@,
            final(self).selection == old(self).selection,
    {
        self.visible = true;
    }

    /// Moves the selection one step up or down, clamped to the list.
    pub fn move_selection(&mut self, inc: bool)
        ensures
            final(self).selection == next_selection(
                old(self).selection,
                inc,
                old(self).cmds@.len(),
            ),
            final(self).cmds@ == old(self).cmds@,
            final(self).visible == old(self).visible,
    {
        let mut new_selection = self.selection;
        new_selection = if inc {
            if new_selection == 0xffff {
                0xffff
            } else {
                new_selection + 1
            }
        } else {
            if new_selection == 0 {
                0
            } else {
                new_selection - 1
            }
        };
        let len = self.cmds.len();
        let top = if len == 0 {
            0
        } else {
            len - 1
        };
        if top <= 0xffff {
            let max: u16 = top as u16;
            self.selection = if new_selection <= max {
                new_selection
            } else {
                max
            };
        }
    }

    /// Handles one decoded key event. An open popup consumes every event:
    /// exit closes it, down and up move the selection. A closed popup
    /// consumes only the open-help event, which opens it.
    pub fn event(&mut self, ev: HelpEvent) -> (r: EventState)
        ensures
            final(self).cmds@ == old(self).cmds@,
            old(self).visible ==> {
                &&& r == EventState::Consumed
                &&& final(self).visible == (ev != HelpEvent::ExitPopup)
                &&& final(self).selection == if ev == HelpEvent::MoveDown {
                    next_selection(old(self).selection, true, old(self).cmds@.len())
                } else if ev == HelpEvent::MoveUp {
                    next_selection(old(self).selection, false, old(self).cmds@.len())
                } else {
                    old(self).selection
                }
            },
            !old(self).visible ==> {
                &&& r == if ev == HelpEvent::OpenHelp {
                    EventState::Consumed
                } else {
                    EventState::NotConsumed
                }
                &&& final(self).visible == (ev == HelpEvent::OpenHelp)
                &&& final(self).selection == old(self).selection
            },
    {
        if self.visible {
            match ev {
                HelpEvent::ExitPopup => {
                    self.close();
                },
                HelpEvent::MoveDown => {
                    self.move_selection(true);
                },
                HelpEvent::MoveUp => {
                    self.move_selection(false);
                },
                _ => {},
            }
            EventState::Consumed
        } else if ev == HelpEvent::OpenHelp {
            self.show();
            EventState::Consumed
        } else {
            EventState::NotConsumed
        }
    }

    /// Takes a fresh command list: hidden entries are left out, duplicates
    /// by key are dropped, each group's entries end up contiguous with
    /// names ascending inside the group. Every kept entry is one of the
    /// given ones, and every visible given entry is represented by an
    /// entry with its key.
    pub fn set_cmds(&mut self, cmds: Vec<CommandInfo>)
        ensures
            forall|i: int, j: int|
                0 <= i < j < final(self).cmds@.len() ==> text_key(
                    (#[trigger] final(self).cmds@[i]).text,
                ) != text_key((#[trigger] final(self).cmds@[j]).text),
            forall|i: int, j: int, k: int|
                0 <= i < j < k < final(self).cmds@.len() && same_group(
                    (#[trigger] final(self).cmds@[i]).text,
                    (#[trigger] final(self).cmds@[k]).text,
                ) ==> same_group(final(self).cmds@[i].text, (#[trigger] final(self).cmds@[j]).text),
            forall|i: int, j: int|
                0 <= i < j < final(self).cmds@.len() && same_group(
                    (#[trigger] final(self).cmds@[i]).text,
                    (#[trigger] final(self).cmds@[j]).text,
                ) ==> key_le(
                    text_key(final(self).cmds@[i].text),
                    text_key(final(self).cmds@[j].text),
                ),
            forall|i: int|
                0 <= i < final(self).cmds@.len() ==> !(#[trigger] final(self).cmds@[i]).text.hide_help,
            forall|i: int|
                0 <= i < final(self).cmds@.len() ==> cmds@.contains(
                    #[trigger] final(self).cmds@[i],
                ),
            forall|j: int|
                0 <= j < cmds@.len() && !(#[trigger] cmds@[j]).text.hide_help ==> key_represented(
                    final(self).cmds@,
                    text_key(cmds@[j].text),
                ),
            final(self).visible == old(self).visible,
            final(self).selection == old(self).selection,
    {
        let ghost all = cmds@;
        let mut rest = cmds;
        let mut out: Vec<CommandInfo> = Vec::new();
        let ghost mut done: Seq<CommandInfo> = Seq::empty();
        while rest.len() > 0
            invariant
                all == cmds@,
                all == done + rest@,
                cmds_sorted_unique(out@),
                forall|i: int| 0 <= i < out@.len() ==> !(#[trigger] out@[i]).text.hide_help,
                forall|i: int| 0 <= i < out@.len() ==> all.contains(#[trigger] out@[i]),
                forall|j: int|
                    0 <= j < done.len() && !(#[trigger] done[j]).text.hide_help ==> key_represented(
                        out@,
                        text_key(done[j].text),
                    ),
            decreases rest@.len(),
        {
            let ghost old_done = done;
            let ghost old_rest = rest@;
            let c = rest.remove(0);
            proof {
                assert(old_rest[0] == c);
                assert(all[old_done.len() as int] == c);
                done = old_done.push(c);
                assert(all =~= done + rest@) by {
                    assert(old_rest =~= seq![c] + rest@);
                }
            }
            if !c.text.hide_help {
                insert_sorted_unique(&mut out, c, Ghost(all));
            }
        }
        proof {
            assert(done =~= all);
            lemma_sorted_unique_shape(out@);
        }
        self.cmds = out;
    }

    /// The rows of the rendered help text, in order: a heading whenever
    /// the group changes, one row per command with the selected one
    /// marked, and the selected command's description after it.
    pub fn get_text(&self) -> (r: Vec<HelpRow>)
        ensures
            r@.map_values(|row: HelpRow| row_v(row)) == rows_upto(
                self.cmds@,
                self.selection as int,
                self.cmds@.len() as int,
            ),
    {
        let ghost sel = self.selection as int;
        let mut rows: Vec<HelpRow> = Vec::new();
        let n = self.cmds.len();
        let mut i: usize = 0;
        while i < n
            invariant
                i <= n,
                n == self.cmds@.len(),
                sel == self.selection as int,
                rows@.len() == rows_upto(self.cmds@, sel, i as int).len(),
                forall|k: int|
                    0 <= k < rows@.len() ==> row_v(#[trigger] rows@[k]) == rows_upto(
                        self.cmds@,
                        sel,
                        i as int,
                    )[k],
            decreases n - i,
        {
            let ghost prev = rows_upto(self.cmds@, sel, i as int);
            let ghost cur = rows_upto(self.cmds@, sel, i + 1);
            let new_group = i == 0 || !(self.cmds[i].text.group == self.cmds[i - 1].text.group);
            if new_group {
                rows.push(HelpRow::Group(self.cmds[i].text.group.clone()));
            }
            let selected = i <= 0xffff && (i as u16) == self.selection;
            rows.push(HelpRow::Command(self.cmds[i].text.name.clone(), selected));
            if selected {
                rows.push(HelpRow::Desc(self.cmds[i].text.desc.clone()));
            }
            proof {
                let header: Seq<RowV> = if i == 0 || self.cmds@[i as int].text.group@
                    != self.cmds@[i - 1].text.group@ {
                    seq![RowV::Group(self.cmds@[i as int].text.group@)]
                } else {
                    Seq::empty()
                };
                let line = seq![RowV::Command(self.cmds@[i as int].text.name@, i == sel)];
                let desc: Seq<RowV> = if i == sel {
                    seq![RowV::Desc(self.cmds@[i as int].text.desc@)]
                } else {
                    Seq::empty()
                };
                assert(cur == prev + header + line + desc);
                assert(new_group == (header.len() == 1));
                assert(selected == (i == sel));
                assert(rows@.len() == cur.len());
                assert forall|k: int| 0 <= k < rows@.len() implies row_v(#[trigger] rows@[k])
                    == cur[k] by {
                    if k < prev.len() {
                        assert(cur[k] == prev[k]);
                    }
                }
            }
            i = i + 1;
        }
        proof {
            let expected = rows_upto(self.cmds@, sel, n as int);
            assert(rows@.map_values(|row: HelpRow| row_v(row)) =~= expected);
        }
        rows
    }
}

/// A list represents each of its own keys.
proof fn lemma_identity_representation(s: Seq<CommandInfo>)
    ensures
        forall|k: int| 0 <= k < s.len() ==> key_represented(s, text_key((#[trigger] s[k]).text)),
{
    assert forall|k: int| 0 <= k < s.len() implies key_represented(
        s,
        text_key((#[trigger] s[k]).text),
    ) by {
        assert(0 <= k < s.len() && text_key(s[k].text) == text_key(s[k].text));
    }
}

/// Inserting a strictly-between key at its boundary keeps the strict order.
proof fn lemma_sorted_insert(
    old_out: Seq<CommandInfo>,
    new_out: Seq<CommandInfo>,
    at: int,
    c: CommandInfo,
)
    requires
        cmds_sorted_unique(old_out),
        0 <= at <= old_out.len(),
        new_out.len() == old_out.len() + 1,
        new_out[at] == c,
        forall|j: int| 0 <= j < at ==> new_out[j] == old_out[j],
        forall|j: int| at < j < new_out.len() ==> new_out[j] == old_out[j - 1],
        forall|j: int| 0 <= j < at ==> key_lt(text_key(#[trigger] old_out[j].text), text_key(c.text)),
        at < old_out.len() ==> key_lt(text_key(c.text), text_key(old_out[at].text)),
    ensures
        cmds_sorted_unique(new_out),
{
    assert forall|p: int, q: int|
        0 <= p < q < new_out.len() implies key_lt(
        text_key(new_out[p].text),
        text_key(new_out[q].text),
    ) by {
        if p < at && q == at {
        } else if p < at && q > at {
            assert(key_lt(text_key(old_out[p].text), text_key(old_out[q - 1].text)) || p == q - 1);
            if p == q - 1 {
                assert(key_lt(text_key(old_out[p].text), text_key(c.text)));
                assert(key_lt(text_key(c.text), text_key(old_out[at].text)));
            }
        } else if p == at && q > at {
            assert(key_lt(text_key(c.text), text_key(old_out[at].text)));
            if q - 1 > at {
                assert(key_lt(text_key(old_out[at].text), text_key(old_out[q - 1].text)));
                lemma_key_le_trans(
                    text_key(c.text),
                    text_key(old_out[at].text),
                    text_key(old_out[q - 1].text),
                );
                if text_key(c.text) == text_key(old_out[q - 1].text) {
                    assert(key_le(text_key(old_out[at].text), text_key(c.text)));
                    lemma_key_le_antisym(text_key(c.text), text_key(old_out[at].text));
                }
            }
        }
    }
}

/// After an insertion, every key of the old list is still represented.
proof fn lemma_insert_representation(
    old_out: Seq<CommandInfo>,
    new_out: Seq<CommandInfo>,
    at: int,
)
    requires
        0 <= at < new_out.len(),
        new_out.len() == old_out.len() + 1,
        forall|j: int| 0 <= j < at ==> new_out[j] == old_out[j],
        forall|j: int| at < j < new_out.len() ==> new_out[j] == old_out[j - 1],
    ensures
        forall|k: int|
            0 <= k < old_out.len() ==> key_represented(
                new_out,
                text_key((#[trigger] old_out[k]).text),
            ),
{
    assert forall|k: int| 0 <= k < old_out.len() implies key_represented(
        new_out,
        text_key((#[trigger] old_out[k]).text),
    ) by {
        let qn: int = if k < at {
            k
        } else {
            k + 1
        };
        assert(new_out[qn] == old_out[k]);
        assert(text_key(new_out[qn].text) == text_key(old_out[k].text));
    }
}

/// Finds where a key belongs in the ordered list: the first slot whose key
/// is not strictly below it, and whether that slot's key equals it.
fn find_slot(out: &Vec<CommandInfo>, c: &CommandText) -> (r: (usize, bool))
    requires
        cmds_sorted_unique(out@),
    ensures
        r.0 <= out@.len(),
        forall|j: int| 0 <= j < r.0 ==> key_lt(text_key(#[trigger] out@[j].text), text_key(*c)),
        r.1 ==> r.0 < out@.len() && text_key(out@[r.0 as int].text) == text_key(*c),
        !r.1 && r.0 < out@.len() ==> key_lt(text_key(*c), text_key(out@[r.0 as int].text)),
{
    let n = out.len();
    let mut i: usize = 0;
    while i < n
        invariant
            i <= n,
            n == out@.len(),
            forall|j: int| 0 <= j < i ==> key_lt(text_key(#[trigger] out@[j].text), text_key(*c)),
        decreases n - i,
    {
        let le1 = text_key_le(&out[i].text, c);
        let le2 = text_key_le(c, &out[i].text);
        if le1 && le2 {
            proof {
                lemma_key_le_antisym(text_key(out@[i as int].text), text_key(*c));
            }
            return (i, true);
        }
        if le2 && !le1 {
            return (i, false);
        }
        proof {
            if !le1 && !le2 {
                lemma_key_le_total(text_key(out@[i as int].text), text_key(*c));
            }
            assert(key_lt(text_key(out@[i as int].text), text_key(*c)));
        }
        i = i + 1;
    }
    (n, false)
}

/// Puts one visible command into the ordered list: dropped when its key is
/// already there, inserted at its ordered place otherwise.
fn insert_sorted_unique(out: &mut Vec<CommandInfo>, c: CommandInfo, origin: Ghost<Seq<CommandInfo>>)
    requires
        cmds_sorted_unique(old(out)@),
        !c.text.hide_help,
        forall|i: int| 0 <= i < old(out)@.len() ==> !(#[trigger] old(out)@[i]).text.hide_help,
        forall|i: int| 0 <= i < old(out)@.len() ==> origin@.contains(#[trigger] old(out)@[i]),
        origin@.contains(c),
    ensures
        cmds_sorted_unique(final(out)@),
        forall|i: int| 0 <= i < final(out)@.len() ==> !(#[trigger] final(out)@[i]).text.hide_help,
        forall|i: int| 0 <= i < final(out)@.len() ==> origin@.contains(#[trigger] final(out)@[i]),
        key_represented(final(out)@, text_key(c.text)),
        forall|k: int|
            0 <= k < old(out)@.len() ==> key_represented(
                final(out)@,
                text_key((#[trigger] old(out)@[k]).text),
            ),
{
    let ghost old_out = out@;
    let slot = find_slot(out, &c.text);
    let i = slot.0;
    if slot.1 {
        proof {
            assert(key_represented(out@, text_key(c.text)));
            lemma_identity_representation(out@);
        }
        return ;
    }
    out.insert(i, c);
    proof {
        assert(out@[i as int] == c);
        assert(forall|j: int| 0 <= j < i ==> out@[j] == old_out[j]);
        assert(forall|j: int| i < j < out@.len() ==> out@[j] == old_out[j - 1]);
        lemma_sorted_insert(old_out, out@, i as int, c);
        lemma_insert_representation(old_out, out@, i as int);
        assert(key_represented(out@, text_key(c.text)));
    }
}

} // verus!

//! The story dialect, read as a function over bytes.
//!
//! ```text
//!   # ...                    comment
//!   label <name>             a jump target
//!   scene <name>             the backdrop
//!   show <actor>             put an actor on stage
//!   hide <actor>             take one off
//!   say <actor> "<text>"     one line of dialogue
//!   choice / -> / jump       branching
//! ```
//!
//! Unknown lines are skipped rather than fatal: a story file is content, and
//! content must not be able to crash the game. A `say` without an actor or
//! without non-empty quoted text is malformed and dropped, and its actor gets
//! no slot: a blank line is never emitted, because a line length of zero is
//! the typewriter's request for a description. Actor names get slots in
//! first-appearance order, so slot 0 is whoever speaks or is shown first, and
//! the cast is the number of names.
use crate::text::{
    char_pred, decode_utf8_prefix, find_char, find_whitespace, first_index, lemma_first_index,
    lemma_first_index_bounds, lemma_utf8_prefix_append, lemma_valid_prefix,
    law_valid_utf8_is_read_whole, trim, trim_range,
    utf8_prefix, valid_prefix_len, ws_pred,
};
use vstd::prelude::*;
use vstd::utf8::{decode_utf8, encode_utf8, valid_first_scalar, valid_utf8};

verus! {

/// One line of dialogue.
pub struct Say {
    /// The actor slot assigned to this speaker.
    pub speaker: u32,
    pub text: String,
}

/// A parsed act.
pub struct Script {
    pub says: Vec<Say>,
    /// How many distinct actors the act names. This is the roster size,
    /// discovered rather than declared.
    pub cast: u32,
}

/// One line of dialogue, as a value.
pub struct SayModel {
    pub speaker: u32,
    pub text: Seq<char>,
}

/// A parsed act, as a value.
pub struct ScriptModel {
    pub says: Seq<SayModel>,
    pub cast: u32,
}

/// What reading an act has gathered so far: the actor names in
/// first-appearance order, and the lines of dialogue.
pub struct ActModel {
    pub names: Seq<Seq<char>>,
    pub says: Seq<SayModel>,
}

impl View for Say {
    type V = SayModel;

    open spec fn view(&self) -> SayModel {
        SayModel { speaker: self.speaker, text: self.text@ }
    }
}

impl View for Script {
    type V = ScriptModel;

    open spec fn view(&self) -> ScriptModel {
        ScriptModel { says: self.says@.map_values(|s: Say| s@), cast: self.cast }
    }
}

pub open spec fn say_kw() -> Seq<char> {
    seq!['s', 'a', 'y']
}

pub open spec fn show_kw() -> Seq<char> {
    seq!['s', 'h', 'o', 'w']
}

pub open spec fn hide_kw() -> Seq<char> {
    seq!['h', 'i', 'd', 'e']
}

/// A line split into its keyword and the rest: the trimmed line up to its
/// first whitespace, and what follows it, trimmed.
pub open spec fn head(line: Seq<char>) -> (Seq<char>, Seq<char>) {
    let t = trim(line);
    let i = first_index(t, ws_pred()) as int;
    (t.take(i), trim(t.skip(i)))
}

/// The text between the first pair of double quotes, if there is a pair.
pub open spec fn quoted(s: Seq<char>) -> Option<Seq<char>> {
    let a = first_index(s, char_pred('"')) as int;
    if a >= s.len() {
        None
    } else {
        let rest = s.skip(a + 1);
        let b = first_index(rest, char_pred('"')) as int;
        if b >= rest.len() {
            None
        } else {
            Some(rest.take(b))
        }
    }
}

pub open spec fn name_pred(name: Seq<char>) -> spec_fn(Seq<char>) -> bool {
    |n: Seq<char>| n == name
}

/// The slot of `name`: where it first appears in `names`, or a new slot at
/// the end.
pub open spec fn slot_of(names: Seq<Seq<char>>, name: Seq<char>) -> (Seq<Seq<char>>, nat) {
    let i = first_index(names, name_pred(name));
    if i < names.len() {
        (names, i)
    } else {
        (names.push(name), names.len())
    }
}

/// What one line of the act adds.
pub open spec fn read_line(m: ActModel, raw: Seq<char>) -> ActModel {
    let line = trim(raw);
    if line.len() == 0 || line[0] == '#' {
        m
    } else {
        let kw = head(line).0;
        let rest = head(line).1;
        if kw == say_kw() {
            let who = head(rest).0;
            let tail = head(rest).1;
            if who.len() == 0 {
                m
            } else {
                match quoted(tail) {
                    None => m,
                    Some(text) => if text.len() == 0 {
                        m
                    } else {
                        let slot = slot_of(m.names, who);
                        ActModel {
                            names: slot.0,
                            says: m.says.push(SayModel { speaker: slot.1 as u32, text }),
                        }
                    },
                }
            }
        } else if kw == show_kw() || kw == hide_kw() {
            let who = head(rest).0;
            if who.len() == 0 {
                m
            } else {
                ActModel { names: slot_of(m.names, who).0, says: m.says }
            }
        } else {
            m
        }
    }
}

/// Read `text` line by line, lines being separated by `'\n'`.
pub open spec fn read_lines(m: ActModel, text: Seq<char>) -> ActModel
    decreases text.len(),
{
    let i = first_index(text, char_pred('\n')) as int;
    if i < text.len() {
        read_lines(read_line(m, text.take(i)), text.skip(i + 1))
    } else {
        read_line(m, text)
    }
}

pub open spec fn empty_act() -> ActModel {
    ActModel { names: Seq::empty(), says: Seq::empty() }
}

/// The act a text reads as.
pub open spec fn script_of_text(text: Seq<char>) -> ScriptModel {
    let m = read_lines(empty_act(), text);
    let n = m.names.len() as u32;
    ScriptModel { says: m.says, cast: n }
}

/// The act a byte buffer reads as: the text is its longest valid UTF-8 prefix.
pub open spec fn script_of_bytes(src: Seq<u8>) -> ScriptModel {
    script_of_text(utf8_prefix(src))
}

/// The line at `i` of an act, wrapping; none for an act with no lines.
pub open spec fn line_at(says: Seq<SayModel>, i: u32) -> Option<SayModel> {
    if says.len() == 0 {
        None
    } else {
        Some(says[(i as int) % (says.len() as int)])
    }
}

impl Script {
    /// The line at `i`, wrapping. The act loops rather than ending, because
    /// what happens after the last line is a story decision and this act does
    /// not make one.
    pub fn line(&self, i: u32) -> (r: Option<&Say>)
        ensures
            self.says@.len() == 0 ==> r is None,
            self.says@.len() > 0 ==> r == Some(&self.says@[(i as int) % (self.says@.len() as int)]),
            r matches Some(s) ==> line_at(self@.says, i) == Some(s@),
    {
        if self.says.len() == 0 {
            None
        } else {
            let k = (i as usize) % self.says.len();
            Some(&self.says[k])
        }
    }

    /// How many lines of dialogue the act has.
    pub fn len(&self) -> (r: usize)
        ensures
            r == self.says@.len(),
    {
        self.says.len()
    }
}

/// Whether the ranges `a` and `b` of `text` hold the same characters.
fn same_chars(text: &Vec<char>, a: (usize, usize), b: (usize, usize)) -> (r: bool)
    requires
        a.0 <= a.1 <= text.len(),
        b.0 <= b.1 <= text.len(),
    ensures
        r == (text@.subrange(a.0 as int, a.1 as int) == text@.subrange(b.0 as int, b.1 as int)),
{
    let ghost sa = text@.subrange(a.0 as int, a.1 as int);
    let ghost sb = text@.subrange(b.0 as int, b.1 as int);
    if a.1 - a.0 != b.1 - b.0 {
        assert(sa.len() != sb.len());
        return false;
    }
    let len = a.1 - a.0;
    let mut k: usize = 0;
    while k < len
        invariant
            len == a.1 - a.0 == b.1 - b.0,
            a.0 <= a.1 <= text.len(),
            b.0 <= b.1 <= text.len(),
            k <= len,
            forall|j: int| 0 <= j < k ==> sa[j] == sb[j],
            sa == text@.subrange(a.0 as int, a.1 as int),
            sb == text@.subrange(b.0 as int, b.1 as int),
        decreases len - k,
    {
        if text[a.0 + k] != text[b.0 + k] {
            assert(sa[k as int] != sb[k as int]);
            return false;
        }
        k = k + 1;
    }
    assert(sa =~= sb);
    true
}

/// The ranges of `text` that `names` stands for.
pub open spec fn names_model(text: Seq<char>, names: Seq<(usize, usize)>) -> Seq<Seq<char>> {
    names.map_values(|r: (usize, usize)| text.subrange(r.0 as int, r.1 as int))
}

pub open spec fn ranges_in(text: Seq<char>, names: Seq<(usize, usize)>) -> bool {
    forall|k: int|
        #![trigger names[k]]
        0 <= k < names.len() ==> names[k].0 <= names[k].1 <= text.len()
}

/// The slot of the name at range `who`, adding it when it is new.
fn slot_of_exec(text: &Vec<char>, names: &mut Vec<(usize, usize)>, who: (usize, usize)) -> (r:
    usize)
    requires
        who.0 <= who.1 <= text.len(),
        ranges_in(text@, old(names)@),
    ensures
        ranges_in(text@, final(names)@),
        (names_model(text@, final(names)@), r as nat) == slot_of(
            names_model(text@, old(names)@),
            text@.subrange(who.0 as int, who.1 as int),
        ),
{
    let ghost name = text@.subrange(who.0 as int, who.1 as int);
    let ghost m = names_model(text@, names@);
    let mut i: usize = 0;
    while i < names.len()
        invariant
            i <= names@.len(),
            ranges_in(text@, names@),
            who.0 <= who.1 <= text.len(),
            m == names_model(text@, names@),
            name == text@.subrange(who.0 as int, who.1 as int),
            forall|k: int| 0 <= k < i ==> !(#[trigger] name_pred(name)(m[k])),
        decreases names@.len() - i,
    {
        let r = names[i];
        assert(names@[i as int].0 <= names@[i as int].1 <= text.len());
        if same_chars(text, r, who) {
            proof {
                assert(m[i as int] == text@.subrange(r.0 as int, r.1 as int));
                lemma_first_index(m, name_pred(name), i as int);
            }
            return i;
        }
        assert(m[i as int] == text@.subrange(r.0 as int, r.1 as int));
        i = i + 1;
    }
    proof {
        lemma_first_index(m, name_pred(name), i as int);
    }
    let n = names.len();
    names.push(who);
    assert(names_model(text@, names@) =~= m.push(name));
    n
}

/// Build a `String` from the range `lo..hi` of `text`.
pub(crate) fn string_of(text: &Vec<char>, lo: usize, hi: usize) -> (s: String)
    requires
        lo <= hi <= text.len(),
    ensures
        s@ == text@.subrange(lo as int, hi as int),
{
    let mut s = String::new();
    let mut i = lo;
    while i < hi
        invariant
            lo <= i <= hi <= text.len(),
            s@ == text@.subrange(lo as int, i as int),
        decreases hi - i,
    {
        s.push(text[i]);
        assert(s@ =~= text@.subrange(lo as int, i + 1));
        i = i + 1;
    }
    s
}

/// What the gathered names and lines stand for.
pub open spec fn act_of(text: Seq<char>, names: Seq<(usize, usize)>, says: Seq<Say>) -> ActModel {
    ActModel { names: names_model(text, names), says: says.map_values(|s: Say| s@) }
}

/// Split the range `lo..hi` into keyword and rest, as `head` does.
fn head_range(text: &Vec<char>, lo: usize, hi: usize) -> (r: ((usize, usize), (usize, usize)))
    requires
        lo <= hi <= text.len(),
    ensures
        r.0.0 <= r.0.1 <= text.len(),
        r.1.0 <= r.1.1 <= text.len(),
        text@.subrange(r.0.0 as int, r.0.1 as int) == head(text@.subrange(lo as int, hi as int)).0,
        text@.subrange(r.1.0 as int, r.1.1 as int) == head(text@.subrange(lo as int, hi as int)).1,
{
    let (a, b) = trim_range(text, lo, hi);
    let i = find_whitespace(text, a, b);
    let (c, d) = trim_range(text, i, b);
    proof {
        let t = text@.subrange(a as int, b as int);
        assert(t.take(i - a) =~= text@.subrange(a as int, i as int));
        assert(t.skip(i - a) =~= text@.subrange(i as int, b as int));
    }
    ((a, i), (c, d))
}

/// The range between the first pair of double quotes in `lo..hi`, as `quoted`
/// finds it.
fn quoted_range(text: &Vec<char>, lo: usize, hi: usize) -> (r: Option<(usize, usize)>)
    requires
        lo <= hi <= text.len(),
    ensures
        match r {
            None => quoted(text@.subrange(lo as int, hi as int)) is None,
            Some(q) => q.0 <= q.1 <= text.len() && quoted(text@.subrange(lo as int, hi as int))
                == Some(text@.subrange(q.0 as int, q.1 as int)),
        },
{
    let ghost s = text@.subrange(lo as int, hi as int);
    let a = find_char(text, lo, hi, '"');
    if a == hi {
        return None;
    }
    let b = find_char(text, a + 1, hi, '"');
    assert(s.skip(a - lo + 1) =~= text@.subrange(a + 1, hi as int));
    if b == hi {
        return None;
    }
    assert(s.skip(a - lo + 1).take(b - (a + 1)) =~= text@.subrange(a + 1, b as int));
    Some((a + 1, b))
}

/// Whether the range `r` of `text` spells `w`.
fn is_word(text: &Vec<char>, r: (usize, usize), w: &[char]) -> (b: bool)
    requires
        r.0 <= r.1 <= text.len(),
    ensures
        b == (text@.subrange(r.0 as int, r.1 as int) == w@),
{
    let ghost s = text@.subrange(r.0 as int, r.1 as int);
    if r.1 - r.0 != w.len() {
        assert(s.len() != w@.len());
        return false;
    }
    let mut k: usize = 0;
    while k < w.len()
        invariant
            r.0 <= r.1 <= text.len(),
            r.1 - r.0 == w@.len(),
            k <= w@.len(),
            s == text@.subrange(r.0 as int, r.1 as int),
            forall|j: int| 0 <= j < k ==> s[j] == w@[j],
        decreases w@.len() - k,
    {
        if text[r.0 + k] != w[k] {
            assert(s[k as int] != w@[k as int]);
            return false;
        }
        k = k + 1;
    }
    assert(s =~= w@);
    true
}

/// Read the line at `lo..hi` into the gathered names and lines.
fn read_line_exec(
    text: &Vec<char>,
    lo: usize,
    hi: usize,
    names: &mut Vec<(usize, usize)>,
    says: &mut Vec<Say>,
)
    requires
        lo <= hi <= text.len(),
        ranges_in(text@, old(names)@),
    ensures
        ranges_in(text@, final(names)@),
        act_of(text@, final(names)@, final(says)@) == read_line(
            act_of(text@, old(names)@, old(says)@),
            text@.subrange(lo as int, hi as int),
        ),
{
    let ghost m = act_of(text@, names@, says@);
    let (a, b) = trim_range(text, lo, hi);
    if a == b || text[a] == '#' {
        return;
    }
    let (kw, rest) = head_range(text, a, b);
    let say_word = ['s', 'a', 'y'];
    let show_word = ['s', 'h', 'o', 'w'];
    let hide_word = ['h', 'i', 'd', 'e'];
    assert(say_word@ =~= say_kw());
    assert(show_word@ =~= show_kw());
    assert(hide_word@ =~= hide_kw());
    if is_word(text, kw, &say_word) {
        let (who, tail) = head_range(text, rest.0, rest.1);
        if who.0 == who.1 {
            return;
        }
        match quoted_range(text, tail.0, tail.1) {
            None => {
                return;
            },
            Some(q) => {
                if q.0 == q.1 {
                    return;
                }
                let slot = slot_of_exec(text, names, who);
                let line_text = string_of(text, q.0, q.1);
                says.push(Say { speaker: #[verifier::truncate] (slot as u32), text: line_text });
                assert(act_of(text@, names@, says@).says =~= m.says.push(
                    SayModel { speaker: slot as u32, text: text@.subrange(q.0 as int, q.1 as int) },
                ));
            },
        }
    } else if is_word(text, kw, &show_word) || is_word(text, kw, &hide_word) {
        let (who, _tail) = head_range(text, rest.0, rest.1);
        if who.0 == who.1 {
            return;
        }
        let _slot = slot_of_exec(text, names, who);
    }
}

/// Read an act from its text.
pub fn parse_text(text: &Vec<char>) -> (r: Script)
    ensures
        r@ == script_of_text(text@),
{
    let mut names: Vec<(usize, usize)> = Vec::new();
    let mut says: Vec<Say> = Vec::new();
    let n = text.len();
    let mut pos: usize = 0;
    assert(act_of(text@, names@, says@).names =~= empty_act().names);
    assert(act_of(text@, names@, says@).says =~= empty_act().says);
    assert(text@.subrange(0, n as int) =~= text@);
    while pos < n
        invariant
            pos <= n == text.len(),
            ranges_in(text@, names@),
            read_lines(act_of(text@, names@, says@), text@.subrange(pos as int, n as int))
                == read_lines(empty_act(), text@),
        decreases n - pos,
    {
        let ghost rem = text@.subrange(pos as int, n as int);
        let ghost before = act_of(text@, names@, says@);
        let j = find_char(text, pos, n, '\n');
        read_line_exec(text, pos, j, &mut names, &mut says);
        if j < n {
            assert(rem.take(j - pos) =~= text@.subrange(pos as int, j as int));
            assert(rem.skip(j - pos + 1) =~= text@.subrange(j + 1, n as int));
            pos = j + 1;
        } else {
            assert(rem =~= text@.subrange(pos as int, j as int));
            assert(text@.subrange(n as int, n as int) =~= Seq::<char>::empty());
            assert(first_index(Seq::<char>::empty(), char_pred('\n')) == 0);
            assert(trim(Seq::<char>::empty()) =~= Seq::<char>::empty());
            pos = n;
        }
    }
    proof {
        assert(text@.subrange(n as int, n as int) =~= Seq::<char>::empty());
        assert(trim(Seq::<char>::empty()) =~= Seq::<char>::empty());
    }
    let cast = #[verifier::truncate] (names.len() as u32);
    Script { says, cast }
}

/// Read an act. A story file that is not UTF-8 all the way through is read up
/// to its first fault; invalid input yields fewer lines, never a panic.
pub fn parse(src: &[u8]) -> (r: Script)
    ensures
        r@ == script_of_bytes(src@),
{
    let text = decode_utf8_prefix(src);
    parse_text(&text)
}

/// What every act read from the empty act satisfies: each name has one slot,
/// every line's speaker is a slot, and every line's text is non-empty and
/// holds no double quote.
pub open spec fn act_ok(m: ActModel) -> bool {
    &&& forall|i: int, j: int|
        0 <= i < j < m.names.len() ==> #[trigger] m.names[i] != #[trigger] m.names[j]
    &&& forall|i: int| 0 <= i < m.says.len() ==> (#[trigger] m.says[i]).speaker < m.names.len()
    &&& forall|i: int, k: int|
        #![trigger m.says[i].text[k]]
        0 <= i < m.says.len() && 0 <= k < m.says[i].text.len() ==> m.says[i].text[k] != '"'
    &&& forall|i: int| 0 <= i < m.says.len() ==> (#[trigger] m.says[i]).text.len() > 0
}

proof fn lemma_trim_empty()
    ensures
        trim(Seq::<char>::empty()) =~= Seq::<char>::empty(),
{
}

proof fn lemma_quoted_has_no_quote(s: Seq<char>)
    ensures
        quoted(s) matches Some(t) ==> forall|k: int| 0 <= k < t.len() ==> t[k] != '"',
{
    let a = first_index(s, char_pred('"')) as int;
    lemma_first_index_bounds(s, char_pred('"'));
    if a < s.len() {
        let rest = s.skip(a + 1);
        lemma_first_index_bounds(rest, char_pred('"'));
        let b = first_index(rest, char_pred('"')) as int;
        assert forall|k: int| 0 <= k < b implies rest[k] != '"' by {
            assert(!char_pred('"')(rest[k]));
        }
    }
}

proof fn lemma_slot_of(names: Seq<Seq<char>>, name: Seq<char>)
    requires
        forall|i: int, j: int| 0 <= i < j < names.len() ==> #[trigger] names[i] != #[trigger] names[j],
    ensures
        ({
            let (n2, slot) = slot_of(names, name);
            &&& slot < n2.len()
            &&& n2[slot as int] == name
            &&& n2.len() <= names.len() + 1
            &&& names.len() <= n2.len()
            &&& forall|i: int| 0 <= i < names.len() ==> n2[i] == names[i]
            &&& forall|i: int, j: int| 0 <= i < j < n2.len() ==> #[trigger] n2[i] != #[trigger] n2[j]
        }),
{
    lemma_first_index_bounds(names, name_pred(name));
    let i = first_index(names, name_pred(name));
    if i >= names.len() {
        let n2 = names.push(name);
        assert forall|a: int, b: int| 0 <= a < b < n2.len() implies #[trigger] n2[a] != #[trigger] n2[b] by {
            if b == names.len() {
                assert(!name_pred(name)(names[a]));
            }
        }
    }
}

/// Reading one line keeps what came before, adds at most one name, and keeps
/// `act_ok`.
proof fn lemma_read_line(m: ActModel, l: Seq<char>)
    requires
        act_ok(m),
        m.names.len() <= u32::MAX,
    ensures
        act_ok(read_line(m, l)),
        m.names.len() <= read_line(m, l).names.len() <= m.names.len() + 1,
        l.len() == 0 ==> read_line(m, l) == m,
        m.says.len() <= read_line(m, l).says.len(),
        forall|i: int| 0 <= i < m.says.len() ==> read_line(m, l).says[i] == m.says[i],
        forall|i: int| 0 <= i < m.names.len() ==> read_line(m, l).names[i] == m.names[i],
{
    if l.len() == 0 {
        lemma_trim_empty();
        assert(l =~= Seq::<char>::empty());
    }
    let line = trim(l);
    if line.len() == 0 || line[0] == '#' {
    } else {
        let kw = head(line).0;
        let rest = head(line).1;
        let who = head(rest).0;
        let tail = head(rest).1;
        lemma_slot_of(m.names, who);
        lemma_quoted_has_no_quote(tail);
        let r = read_line(m, l);
        if kw == say_kw() && who.len() != 0 && quoted(tail) is Some && quoted(tail)->0.len() > 0 {
            let slot = slot_of(m.names, who);
            assert(slot.1 < slot.0.len());
            assert forall|i: int| 0 <= i < r.says.len() implies (#[trigger] r.says[i]).speaker
                < r.names.len() by {
                if i < m.says.len() {
                    assert(r.says[i] == m.says[i]);
                }
            }
            assert forall|i: int, k: int|
                #![trigger r.says[i].text[k]]
                0 <= i < r.says.len() && 0 <= k < r.says[i].text.len() implies r.says[i].text[k]
                != '"' by {
                if i < m.says.len() {
                    assert(r.says[i] == m.says[i]);
                }
            }
            assert forall|i: int| 0 <= i < r.says.len() implies (#[trigger] r.says[i]).text.len()
                > 0 by {
                if i < m.says.len() {
                    assert(r.says[i] == m.says[i]);
                }
            }
        }
    }
}

/// Reading lines keeps `act_ok` and adds no more names than there are
/// characters.
proof fn lemma_read_lines(m: ActModel, text: Seq<char>)
    requires
        act_ok(m),
        m.names.len() + text.len() <= u32::MAX,
    ensures
        act_ok(read_lines(m, text)),
        read_lines(m, text).names.len() <= m.names.len() + text.len(),
    decreases text.len(),
{
    let i = first_index(text, char_pred('\n')) as int;
    lemma_first_index_bounds(text, char_pred('\n'));
    if i < text.len() {
        let m1 = read_line(m, text.take(i));
        lemma_read_line(m, text.take(i));
        lemma_read_lines(m1, text.skip(i + 1));
    } else {
        lemma_read_line(m, text);
    }
}

/// Slots are handed out in first-appearance order: every actor name has one
/// slot, the cast is the number of names, and the speaker of every line is
/// below it, for any story shorter than `u32::MAX` characters. No line is
/// blank (an empty length is the typewriter's request signal), and no line's
/// text holds a double quote (the dialect has no escapes).
pub proof fn law_speakers_are_cast_slots(text: Seq<char>)
    requires
        text.len() < u32::MAX,
    ensures
        script_of_text(text).cast == read_lines(empty_act(), text).names.len(),
        forall|i: int|
            0 <= i < script_of_text(text).says.len() ==> (#[trigger] script_of_text(text).says[i]).text.len()
                > 0,
        act_ok(read_lines(empty_act(), text)),
        read_lines(empty_act(), text).names.len() <= text.len(),
        forall|i: int|
            0 <= i < script_of_text(text).says.len() ==> (#[trigger] script_of_text(text).says[i]).speaker
                < script_of_text(text).cast,
        forall|i: int, k: int|
            #![trigger script_of_text(text).says[i].text[k]]
            0 <= i < script_of_text(text).says.len() && 0 <= k < script_of_text(text).says[i].text.len()
                ==> script_of_text(text).says[i].text[k] != '"',
{
    lemma_read_lines(empty_act(), text);
}

/// A comment, a blank line, or a line whose keyword is not `say`, `show` or
/// `hide` is skipped: the act reads as if the line were not there.
pub proof fn law_unread_lines_are_skipped(m: ActModel, l: Seq<char>, rest: Seq<char>)
    requires
        forall|k: int| 0 <= k < l.len() ==> l[k] != '\n',
        ({
            let line = trim(l);
            ||| line.len() == 0
            ||| line[0] == '#'
            ||| (head(line).0 != say_kw() && head(line).0 != show_kw() && head(line).0
                != hide_kw())
        }),
    ensures
        read_line(m, l) == m,
        read_lines(m, l + seq!['\n'] + rest) == read_lines(m, rest),
{
    let t = l + seq!['\n'] + rest;
    assert forall|k: int| 0 <= k < l.len() implies !(#[trigger] char_pred('\n')(t[k])) by {
        assert(t[k] == l[k]);
    }
    lemma_first_index(t, char_pred('\n'), l.len() as int);
    assert(t.take(l.len() as int) =~= l);
    assert(t.skip(l.len() as int + 1) =~= rest);
}

/// A line the reader skips: it holds no line break, and once trimmed it is
/// blank, a comment, or starts with a keyword other than `say`, `show` and
/// `hide`.
pub open spec fn is_skipped_line(l: Seq<char>) -> bool {
    &&& forall|k: int| 0 <= k < l.len() ==> l[k] != '\n'
    &&& {
        let line = trim(l);
        ||| line.len() == 0
        ||| line[0] == '#'
        ||| (head(line).0 != say_kw() && head(line).0 != show_kw() && head(line).0 != hide_kw())
    }
}

/// Whether position `x.len()` of a text starting with `x` is the start of a
/// line.
pub open spec fn at_line_start(x: Seq<char>) -> bool {
    x.len() == 0 || x.last() == '\n'
}

proof fn lemma_insert_skipped(m: ActModel, x: Seq<char>, l: Seq<char>, y: Seq<char>)
    requires
        at_line_start(x),
        is_skipped_line(l),
    ensures
        read_lines(m, x + (l + seq!['\n']) + y) == read_lines(m, x + y),
    decreases x.len(),
{
    let nl = seq!['\n'];
    if x.len() == 0 {
        assert(x + (l + nl) + y =~= l + nl + y);
        assert(x + y =~= y);
        law_unread_lines_are_skipped(m, l, y);
    } else {
        let p = char_pred('\n');
        lemma_first_index_bounds(x, p);
        let i = first_index(x, p) as int;
        if i >= x.len() {
            assert(!p(x[x.len() - 1]));
        }
        let a = x + (l + nl) + y;
        let c = x + y;
        assert forall|k: int| 0 <= k < i implies !p(#[trigger] a[k]) by {
            assert(a[k] == x[k]);
        }
        assert forall|k: int| 0 <= k < i implies !p(#[trigger] c[k]) by {
            assert(c[k] == x[k]);
        }
        assert(a[i] == x[i] && c[i] == x[i]);
        lemma_first_index(a, p, i);
        lemma_first_index(c, p, i);
        let x2 = x.skip(i + 1);
        assert(a.take(i) =~= x.take(i));
        assert(c.take(i) =~= x.take(i));
        assert(a.skip(i + 1) =~= x2 + (l + nl) + y);
        assert(c.skip(i + 1) =~= x2 + y);
        if x2.len() > 0 {
            assert(x2.last() == x.last());
        }
        lemma_insert_skipped(read_line(m, x.take(i)), x2, l, y);
    }
}

/// Lines the reader skips are skipped wherever they stand: inserting a blank
/// line, a comment or a line with an unknown keyword at the start of any line
/// of a story leaves the act as it was, read from the text or from its UTF-8
/// bytes.
pub proof fn law_skipped_lines_change_nothing(x: Seq<char>, l: Seq<char>, y: Seq<char>)
    requires
        at_line_start(x),
        is_skipped_line(l),
    ensures
        script_of_text(x + (l + seq!['\n']) + y) == script_of_text(x + y),
        script_of_bytes(encode_utf8(x + (l + seq!['\n']) + y)) == script_of_bytes(
            encode_utf8(x + y),
        ),
{
    lemma_insert_skipped(empty_act(), x, l, y);
    let s1 = x + (l + seq!['\n']) + y;
    let s2 = x + y;
    vstd::utf8::encode_utf8_valid_utf8(s1);
    vstd::utf8::encode_utf8_valid_utf8(s2);
    vstd::utf8::encode_utf8_decode_utf8(s1);
    vstd::utf8::encode_utf8_decode_utf8(s2);
    law_valid_utf8_is_read_whole(encode_utf8(s1));
    law_valid_utf8_is_read_whole(encode_utf8(s2));
}

/// The same for any byte source, valid UTF-8 or not: inserting the UTF-8
/// bytes of a skipped line at a line boundary before the first invalid byte
/// (position `j`, where the bytes before it are valid UTF-8 and end a line)
/// leaves the act as it was.
pub proof fn law_skipped_lines_change_nothing_in_bytes(src: Seq<u8>, j: int, l: Seq<char>)
    requires
        0 <= j <= src.len(),
        valid_utf8(src.take(j)),
        at_line_start(decode_utf8(src.take(j))),
        is_skipped_line(l),
    ensures
        script_of_bytes(src.take(j) + encode_utf8(l + seq!['\n']) + src.skip(j)) == script_of_bytes(
            src,
        ),
{
    let x = decode_utf8(src.take(j));
    let ln = l + seq!['\n'];
    let r = src.skip(j);
    vstd::utf8::decode_utf8_encode_utf8(src.take(j));
    assert(src =~= encode_utf8(x) + r);
    assert(src.take(j) + encode_utf8(ln) + r =~= encode_utf8(x) + (encode_utf8(ln) + r));
    lemma_utf8_prefix_append(x, r);
    lemma_utf8_prefix_append(x, encode_utf8(ln) + r);
    lemma_utf8_prefix_append(ln, r);
    let u = utf8_prefix(r);
    assert(x + (ln + u) =~= x + ln + u);
    lemma_insert_skipped(empty_act(), x, l, u);
}

/// A story file that is not UTF-8 all the way through is read up to its
/// first fault: its valid prefix (the bytes before the first place where they
/// stop forming a scalar) is valid UTF-8 and gives the same act as the whole
/// file.
pub proof fn law_invalid_tail_is_ignored(src: Seq<u8>)
    ensures
        valid_prefix_len(src) <= src.len(),
        valid_utf8(src.take(valid_prefix_len(src) as int)),
        valid_prefix_len(src) < src.len() ==> !valid_first_scalar(
            src.skip(valid_prefix_len(src) as int),
        ),
        script_of_bytes(src.take(valid_prefix_len(src) as int)) == script_of_bytes(src),
{
    lemma_valid_prefix(src);
}

proof fn lemma_trailing_newline(m: ActModel, t: Seq<char>)
    ensures
        read_lines(m, t + seq!['\n']) == read_lines(m, t),
    decreases t.len(),
{
    let p = char_pred('\n');
    let a = t + seq!['\n'];
    lemma_first_index_bounds(t, p);
    let i = first_index(t, p) as int;
    assert forall|k: int| 0 <= k < i implies !p(#[trigger] a[k]) by {
        assert(a[k] == t[k]);
    }
    if i < t.len() {
        assert(a[i] == t[i]);
        lemma_first_index(a, p, i);
        assert(a.take(i) =~= t.take(i));
        assert(a.skip(i + 1) =~= t.skip(i + 1) + seq!['\n']);
        lemma_trailing_newline(read_line(m, t.take(i)), t.skip(i + 1));
    } else {
        assert(a[i] == '\n');
        lemma_first_index(a, p, i);
        assert(a.take(i) =~= t);
        let e = a.skip(i + 1);
        assert(e =~= Seq::<char>::empty());
        lemma_trim_empty();
        lemma_first_index_bounds(e, p);
        assert(read_lines(read_line(m, t), e) == read_line(read_line(m, t), e));
    }
}

/// The last line counts whether or not the file ends in a line break:
/// appending a line break to a story leaves its act unchanged, so a final line
/// without one is read like any other.
pub proof fn law_final_line_break_is_optional(t: Seq<char>)
    ensures
        script_of_text(t + seq!['\n']) == script_of_text(t),
{
    lemma_trailing_newline(empty_act(), t);
}

/// The act loops: the line at `i` and the line one act-length later are the
/// same line.
pub proof fn law_lines_wrap(says: Seq<SayModel>, i: u32)
    requires
        says.len() > 0,
        i + says.len() <= u32::MAX,
    ensures
        line_at(says, i) == line_at(says, (i + says.len()) as u32),
        line_at(says, i) is Some,
{
    let n = says.len() as int;
    assert((i + n) % n == (i as int) % n) by (nonlinear_arith)
        requires
            n > 0,
            i >= 0,
    ;
}

/// `String::push` appends one character.
pub assume_specification[ String::push ](s: &mut String, ch: char)
    ensures
        final(s)@ == old(s)@.push(ch),
;

} // verus!

//! State of the interactive score viewer: tabs, scrolling and key handling.
use vstd::prelude::*;
use vstd::utf8::*;
use vstd::string::*;

verus! {

/// The four tabs of the viewer, in display order.
#[derive(Clone, Copy, Debug, PartialEq, Eq, Structural)]
pub enum Tab {
    Summary,
    Histogram,
    Distribution,
    Files,
}

/// Position of a tab in display order.
pub open spec fn tab_index(t: Tab) -> int {
    match t {
        Tab::Summary => 0,
        Tab::Histogram => 1,
        Tab::Distribution => 2,
        Tab::Files => 3,
    }
}

/// The tab at a display position, taken modulo the number of tabs.
pub open spec fn tab_at(i: int) -> Tab {
    let r = i % 4;
    if r == 0 {
        Tab::Summary
    } else if r == 1 {
        Tab::Histogram
    } else if r == 2 {
        Tab::Distribution
    } else {
        Tab::Files
    }
}

impl Tab {
    /// The tab to the right, wrapping from the last back to the first.
    pub fn next(self) -> (r: Tab)
        ensures
            r == tab_at(tab_index(self) + 1),
            self == Tab::Summary ==> r == Tab::Histogram,
            self == Tab::Histogram ==> r == Tab::Distribution,
            self == Tab::Distribution ==> r == Tab::Files,
            self == Tab::Files ==> r == Tab::Summary,
    {
        match self {
            Tab::Summary => Tab::Histogram,
            Tab::Histogram => Tab::Distribution,
            Tab::Distribution => Tab::Files,
            Tab::Files => Tab::Summary,
        }
    }

    /// The tab to the left, wrapping from the first to the last.
    pub fn prev(self) -> (r: Tab)
        ensures
            r == tab_at(tab_index(self) + 3),
            self == Tab::Summary ==> r == Tab::Files,
            self == Tab::Histogram ==> r == Tab::Summary,
            self == Tab::Distribution ==> r == Tab::Histogram,
            self == Tab::Files ==> r == Tab::Distribution,
    {
        match self {
            Tab::Summary => Tab::Files,
            Tab::Histogram => Tab::Summary,
            Tab::Distribution => Tab::Histogram,
            Tab::Files => Tab::Distribution,
        }
    }

    /// Display position of the tab (0 for `Summary` up to 3 for `Files`).
    pub fn index(self) -> (r: usize)
        ensures
            r == tab_index(self),
    {
        match self {
            Tab::Summary => 0,
            Tab::Histogram => 1,
            Tab::Distribution => 2,
            Tab::Files => 3,
        }
    }
}

/// Moving right and then left, or left and then right, returns to the same
/// tab; moving right four times also comes back to where it started.
pub proof fn lemma_tab_cycle(t: Tab)
    ensures
        tab_at(tab_index(tab_at(tab_index(t) + 1)) + 3) == t,
        tab_at(tab_index(tab_at(tab_index(t) + 3)) + 1) == t,
        tab_at(tab_index(t) + 4) == t,
{
}

/// The characters encoded by the first `n` bytes of the UTF-8 encoding of `s`.
pub open spec fn byte_prefix(s: Seq<char>, n: int) -> Seq<char> {
    decode_utf8(encode_utf8(s).subrange(0, n))
}

/// The ellipsis that marks a shortened name.
pub open spec fn ellipsis() -> Seq<char> {
    seq!['\u{2026}']
}

/// A name shortened for a column of `max` bytes: a name of at most `max`
/// UTF-8 bytes is kept; a longer one keeps its first `max - 1` bytes and gets
/// an ellipsis (itself three bytes, so the result is `max + 2` bytes long).
pub open spec fn truncated(s: Seq<char>, max: int) -> Seq<char> {
    if encode_utf8(s).len() <= max {
        s
    } else {
        byte_prefix(s, max - 1) + ellipsis()
    }
}

/// The names that `truncate` can handle for a column of `max` bytes: those
/// that fit, and those whose byte `max - 1` starts a character (the cut after
/// `max - 1` bytes may not split one).
pub open spec fn truncatable(s: Seq<char>, max: int) -> bool {
    encode_utf8(s).len() <= max || (max >= 1 && is_char_boundary(encode_utf8(s), max - 1))
}

/// Shortens a name longer than `max` bytes for the file list: it keeps the
/// first `max - 1` bytes and marks the cut with an ellipsis.
pub fn truncate(s: &str, max: usize) -> (r: String)
    requires
        truncatable(s@, max as int),
    ensures
        r@ == truncated(s@, max as int),
        // A name that fits is kept as it is.
        encode_utf8(s@).len() <= max ==> r@ == s@,
        // A longer one is its first `max - 1` bytes followed by an ellipsis.
        encode_utf8(s@).len() > max ==> encode_utf8(r@) == encode_utf8(s@).subrange(0, max - 1)
            + encode_utf8(seq!['\u{2026}']) && r@.last() == '\u{2026}',
{
    broadcast use encode_utf8_decode_utf8, encode_utf8_valid_utf8;

    let len = s.as_bytes().len();
    if len <= max {
        s.to_owned()
    } else {
        let (head, _tail) = s.split_at(max - 1);
        let mut r = head.to_owned();
        r.append("\u{2026}");
        proof {
            reveal_strlit("\u{2026}");
            assert(encode_utf8(head@) =~= encode_utf8(s@).subrange(0, max - 1));
            encode_utf8_decode_utf8(head@);
            assert(r@ =~= head@ + ellipsis());
            lemma_encode_concat(head@, ellipsis());
        }
        r
    }
}

/// A key as the viewer tells keys apart.
#[derive(Clone, Copy, Debug, PartialEq, Eq, Structural)]
pub enum Key {
    Char(char),
    Esc,
    Left,
    Right,
    Up,
    Down,
    Tab,
    BackTab,
    Other,
}

/// Whether the viewer keeps running after a key event.
#[derive(Clone, Copy, Debug, PartialEq, Eq, Structural)]
pub enum Flow {
    Continue,
    Quit,
}

/// Navigation state of the viewer over `count` scored files.
pub struct App {
    pub active_tab: Tab,
    pub file_scroll: usize,
    pub count: usize,
    pub field: String,
    pub dir: String,
}

/// Index of the last row of a list of `count` rows (0 for an empty list).
pub open spec fn last_row(count: int) -> int {
    if count == 0 {
        0
    } else {
        count - 1
    }
}

/// The scroll offset never passes the last file.
pub open spec fn app_wf(a: App) -> bool {
    a.file_scroll <= last_row(a.count as int)
}

/// The state after one step down in the file list: only on the `Files` tab,
/// and not past the last file.
pub open spec fn scrolled_down(a: App) -> App {
    if a.active_tab == Tab::Files && a.file_scroll < last_row(a.count as int) {
        App { file_scroll: (a.file_scroll + 1) as usize, ..a }
    } else {
        a
    }
}

/// The state after one step up in the file list: only on the `Files` tab,
/// and not before the first file.
pub open spec fn scrolled_up(a: App) -> App {
    if a.active_tab == Tab::Files && a.file_scroll > 0 {
        App { file_scroll: (a.file_scroll - 1) as usize, ..a }
    } else {
        a
    }
}

/// Whether a pressed key ends the viewer.
pub open spec fn quits(key: Key) -> bool {
    key == Key::Char('q') || key == Key::Esc
}

/// The state after a key event; releases and repeats leave it unchanged.
pub open spec fn after_key(a: App, key: Key, pressed: bool) -> App {
    if !pressed {
        a
    } else {
        match key {
            Key::Right | Key::Tab => App { active_tab: tab_at(tab_index(a.active_tab) + 1), ..a },
            Key::Left | Key::BackTab => App { active_tab: tab_at(tab_index(a.active_tab) + 3), ..a },
            Key::Down => scrolled_down(a),
            Key::Up => scrolled_up(a),
            Key::Char(c) => if c == 'j' {
                scrolled_down(a)
            } else if c == 'k' {
                scrolled_up(a)
            } else {
                a
            },
            _ => a,
        }
    }
}

impl App {
    /// A viewer over `count` files, on the summary tab, scrolled to the top.
    pub fn new(count: usize, field: String, dir: String) -> (r: App)
        ensures
            r == (App { active_tab: Tab::Summary, file_scroll: 0, count, field, dir }),
            app_wf(r),
    {
        App { active_tab: Tab::Summary, file_scroll: 0, count, field, dir }
    }

    /// Moves the file list one row down.
    pub fn scroll_down(&mut self)
        ensures
            *final(self) == scrolled_down(*old(self)),
            final(self).active_tab == old(self).active_tab,
            final(self).count == old(self).count,
            final(self).field == old(self).field,
            final(self).dir == old(self).dir,
            final(self).file_scroll == (if old(self).active_tab == Tab::Files && old(self).file_scroll + 1
                < old(self).count {
                old(self).file_scroll + 1
            } else {
                old(self).file_scroll as int
            }),
    {
        if self.active_tab == Tab::Files && self.file_scroll < self.count.saturating_sub(1) {
            self.file_scroll += 1;
        }
    }

    /// Moves the file list one row up.
    pub fn scroll_up(&mut self)
        ensures
            *final(self) == scrolled_up(*old(self)),
            final(self).active_tab == old(self).active_tab,
            final(self).count == old(self).count,
            final(self).field == old(self).field,
            final(self).dir == old(self).dir,
            final(self).file_scroll == (if old(self).active_tab == Tab::Files && old(self).file_scroll > 0 {
                old(self).file_scroll - 1
            } else {
                old(self).file_scroll as int
            }),
    {
        if self.active_tab == Tab::Files && self.file_scroll > 0 {
            self.file_scroll -= 1;
        }
    }

    /// Applies a key event: arrows and `Tab` switch tabs, `j`/`k` and the
    /// vertical arrows scroll, `q` and `Esc` quit; only presses count.
    pub fn handle_key(&mut self, key: Key, pressed: bool) -> (r: Flow)
        ensures
            r == (if pressed && quits(key) { Flow::Quit } else { Flow::Continue }),
            *final(self) == after_key(*old(self), key, pressed),
            // Releases and repeats change nothing.
            !pressed ==> *final(self) == *old(self) && r == Flow::Continue,
            // Quitting keys stop the viewer and change nothing.
            pressed && (key == Key::Char('q') || key == Key::Esc) ==> *final(self) == *old(self) && r
                == Flow::Quit,
            // Every other event keeps the viewer running.
            !(pressed && (key == Key::Char('q') || key == Key::Esc)) ==> r == Flow::Continue,
            // Count, field and directory never change.
            final(self).count == old(self).count,
            final(self).field == old(self).field,
            final(self).dir == old(self).dir,
            // Tab switching moves one tab around the four and keeps the scroll.
            pressed && (key == Key::Right || key == Key::Tab) ==> tab_index(final(self).active_tab) == (
            tab_index(old(self).active_tab) + 1) % 4 && final(self).file_scroll == old(self).file_scroll,
            pressed && (key == Key::Left || key == Key::BackTab) ==> tab_index(final(self).active_tab)
                == (tab_index(old(self).active_tab) + 3) % 4 && final(self).file_scroll == old(
                self,
            ).file_scroll,
            // Scrolling down moves one row on the Files tab while a row is left below.
            pressed && (key == Key::Down || key == Key::Char('j')) ==> final(self).active_tab == old(
                self,
            ).active_tab && final(self).file_scroll == (if old(self).active_tab == Tab::Files && old(
                self,
            ).file_scroll + 1 < old(self).count {
                old(self).file_scroll + 1
            } else {
                old(self).file_scroll as int
            }),
            // Scrolling up moves one row on the Files tab unless at the top.
            pressed && (key == Key::Up || key == Key::Char('k')) ==> final(self).active_tab == old(
                self,
            ).active_tab && final(self).file_scroll == (if old(self).active_tab == Tab::Files && old(
                self,
            ).file_scroll > 0 {
                old(self).file_scroll - 1
            } else {
                old(self).file_scroll as int
            }),
            // Any other key changes nothing.
            !(key == Key::Right || key == Key::Tab || key == Key::Left || key == Key::BackTab || key
                == Key::Down || key == Key::Char('j') || key == Key::Up || key == Key::Char('k'))
                ==> *final(self) == *old(self),
    {
        if !pressed {
            return Flow::Continue;
        }
        match key {
            Key::Esc => Flow::Quit,
            Key::Right | Key::Tab => {
                self.active_tab = self.active_tab.next();
                Flow::Continue
            },
            Key::Left | Key::BackTab => {
                self.active_tab = self.active_tab.prev();
                Flow::Continue
            },
            Key::Down => {
                self.scroll_down();
                Flow::Continue
            },
            Key::Up => {
                self.scroll_up();
                Flow::Continue
            },
            Key::Char(c) => {
                if c == 'q' {
                    Flow::Quit
                } else if c == 'j' {
                    self.scroll_down();
                    Flow::Continue
                } else if c == 'k' {
                    self.scroll_up();
                    Flow::Continue
                } else {
                    Flow::Continue
                }
            },
            Key::Other => Flow::Continue,
        }
    }
}

/// Every key event keeps the scroll offset within the file list.
pub proof fn lemma_key_keeps_wf(a: App, key: Key, pressed: bool)
    requires
        app_wf(a),
    ensures
        app_wf(after_key(a, key, pressed)),
        after_key(a, key, pressed).count == a.count,
        after_key(a, key, pressed).field == a.field,
        after_key(a, key, pressed).dir == a.dir,
{
}

/// Switching one tab right and then one tab left gives back the same state,
/// and so does left then right.
pub proof fn lemma_tab_switch_undone(a: App)
    ensures
        after_key(after_key(a, Key::Right, true), Key::Left, true) == a,
        after_key(after_key(a, Key::Left, true), Key::Right, true) == a,
{
    lemma_tab_cycle(a.active_tab);
}

/// A step down that moved the list is undone by a step up, and a step up
/// that moved it is undone by a step down.
pub proof fn lemma_scroll_undone(a: App)
    requires
        app_wf(a),
    ensures
        scrolled_down(a) != a ==> scrolled_up(scrolled_down(a)) == a,
        scrolled_up(a) != a ==> scrolled_down(scrolled_up(a)) == a,
{
}

/// Scrolling happens on the `Files` tab only; elsewhere the offset stays.
pub proof fn lemma_scroll_only_on_files(a: App, key: Key, pressed: bool)
    requires
        a.active_tab != Tab::Files,
    ensures
        after_key(a, key, pressed).file_scroll == a.file_scroll,
{
}

/// The rows of the file list that a pane of `height` terminal lines shows:
/// two lines go to the border, and the rows start at the scroll offset.
pub open spec fn window(count: int, scroll: int, height: int) -> (int, int) {
    let visible = if height >= 2 { height - 2 } else { 0 };
    let start = if scroll < count { scroll } else { count };
    let end = if start + visible < count { start + visible } else { count };
    (start, end)
}

/// First and one-past-last index of the file rows shown in a pane of the
/// given height, scrolled by `scroll`.
pub fn visible_rows(count: usize, scroll: usize, height: u16) -> (r: (usize, usize))
    ensures
        r.0 as int == window(count as int, scroll as int, height as int).0,
        r.1 as int == window(count as int, scroll as int, height as int).1,
        // The window starts at the scroll offset, within the list.
        r.0 == (if scroll < count { scroll } else { count }),
        // It shows as many rows as the pane holds inside its border, and no
        // row past the end of the list.
        r.0 <= r.1 <= count,
        r.1 - r.0 == (if height >= 2 { height - 2 } else { 0 }) || r.1 == count,
        r.1 - r.0 <= (if height >= 2 { height - 2 } else { 0 }),
{
    let visible: usize = height.saturating_sub(2) as usize;
    let start: usize = if scroll < count { scroll } else { count };
    let end: usize = if visible < count - start { start + visible } else { count };
    (start, end)
}

/// Width of the score bar in the file list, in cells.
pub const BAR_WIDTH: usize = 20;

/// A score bar of `BAR_WIDTH` cells whose first `filled` cells are full.
pub open spec fn bar_cells(filled: int) -> Seq<char> {
    Seq::new(BAR_WIDTH as nat, |i: int| if i < filled { '\u{2588}' } else { '\u{2591}' })
}

/// Draws the score bar of a file: `filled` full cells, then light ones up to
/// `BAR_WIDTH`.
pub fn score_bar(filled: usize) -> (r: String)
    requires
        filled <= BAR_WIDTH,
    ensures
        r@ == bar_cells(filled as int),
        r@.len() == BAR_WIDTH,
        forall|i: int| 0 <= i < filled ==> #[trigger] r@[i] == '\u{2588}',
        forall|i: int| filled <= i < BAR_WIDTH ==> #[trigger] r@[i] == '\u{2591}',
{
    let mut r = String::new();
    let mut i: usize = 0;
    while i < BAR_WIDTH
        invariant
            i <= BAR_WIDTH,
            filled <= BAR_WIDTH,
            r@ == bar_cells(filled as int).take(i as int),
        decreases BAR_WIDTH - i,
    {
        proof {
            reveal_strlit("\u{2588}");
            reveal_strlit("\u{2591}");
        }
        if i < filled {
            r.append("\u{2588}");
        } else {
            r.append("\u{2591}");
        }
        assert(bar_cells(filled as int).take(i + 1) =~= bar_cells(filled as int).take(i as int).push(
            bar_cells(filled as int)[i as int],
        ));
        i += 1;
    }
    assert(bar_cells(filled as int).take(BAR_WIDTH as int) =~= bar_cells(filled as int));
    r
}

/// Height of the histogram's scale: the largest bucket count, or 1 when there
/// are no buckets.
pub fn histogram_ceiling(counts: &Vec<u64>) -> (r: u64)
    ensures
        counts.len() == 0 ==> r == 1,
        counts.len() > 0 ==> counts@.contains(r),
        forall|i: int| 0 <= i < counts.len() ==> counts@[i] <= r,
{
    if counts.len() == 0 {
        return 1;
    }
    let mut best: u64 = counts[0];
    let mut i: usize = 1;
    while i < counts.len()
        invariant
            1 <= i <= counts.len(),
            counts@.contains(best),
            forall|j: int| 0 <= j < i ==> counts@[j] <= best,
        decreases counts.len() - i,
    {
        if counts[i] > best {
            best = counts[i];
        }
        i += 1;
    }
    best
}

proof fn lemma_encode_concat(a: Seq<char>, b: Seq<char>)
    ensures
        encode_utf8(a + b) == encode_utf8(a) + encode_utf8(b),
    decreases a.len(),
{
    if a.len() == 0 {
        assert(a + b =~= b);
        assert(encode_utf8(a) + encode_utf8(b) =~= encode_utf8(b));
    } else {
        lemma_encode_concat(a.drop_first(), b);
        assert((a + b).drop_first() =~= a.drop_first() + b);
        assert((a + b)[0] == a[0]);
        assert(encode_utf8(a + b) =~= encode_scalar(a[0] as u32) + encode_utf8(a.drop_first() + b));
        assert(encode_utf8(a + b) =~= encode_utf8(a) + encode_utf8(b));
    }
}

proof fn lemma_ellipsis_bytes()
    ensures
        encode_utf8(ellipsis()).len() == 3,
        !is_continuation_byte(encode_utf8(ellipsis())[0]),
{
    let c: u32 = '\u{2026}' as u32;
    assert(c == 0x2026);
    assert(ellipsis().drop_first() =~= Seq::<char>::empty());
    assert(has_width_3_encoding(c));
    let b0 = leading_byte_width_3(c);
    assert(0xE0u8 <= 0xE0u8 | (((c >> 12u32) & 0x0Fu32) as u8)) by (bit_vector);
    assert(ellipsis()[0] as u32 == c);
    assert(encode_utf8(Seq::<char>::empty()) =~= Seq::<u8>::empty());
    assert(encode_utf8(ellipsis()) == encode_scalar(ellipsis()[0] as u32) + encode_utf8(ellipsis().drop_first()));
    assert(encode_utf8(ellipsis()) =~= encode_scalar(c));
}

/// Shortening is stable: a shortened name is shortened again to itself, so
/// shortening twice is the same as shortening once.
pub proof fn lemma_truncate_idempotent(s: Seq<char>, max: int)
    requires
        truncatable(s, max),
    ensures
        truncatable(truncated(s, max), max),
        truncated(truncated(s, max), max) == truncated(s, max),
{
    broadcast use encode_utf8_valid_utf8;

    let bytes = encode_utf8(s);
    if bytes.len() > max {
        let head = bytes.subrange(0, max - 1);
        let kept = byte_prefix(s, max - 1);
        valid_utf8_split(bytes, max - 1);
        decode_utf8_encode_utf8(head);
        assert(encode_utf8(kept) == head);
        let t = kept + ellipsis();
        lemma_encode_concat(kept, ellipsis());
        lemma_ellipsis_bytes();
        let tb = encode_utf8(t);
        assert(tb.len() == max + 2);
        assert(tb[max - 1] == encode_utf8(ellipsis())[0]);
        is_char_boundary_iff_not_is_continuation_byte(tb, max - 1);
        assert(tb.subrange(0, max - 1) =~= head);
    }
}

/// Number of presses in `events` of a key that moves one tab to the right.
pub open spec fn right_presses(events: Seq<(Key, bool)>) -> int
    decreases events.len(),
{
    if events.len() == 0 {
        0
    } else {
        right_presses(events.drop_last()) + if events.last().1 && (events.last().0 == Key::Right
            || events.last().0 == Key::Tab) {
            1int
        } else {
            0int
        }
    }
}

/// Number of presses in `events` of a key that moves one tab to the left.
pub open spec fn left_presses(events: Seq<(Key, bool)>) -> int
    decreases events.len(),
{
    if events.len() == 0 {
        0
    } else {
        left_presses(events.drop_last()) + if events.last().1 && (events.last().0 == Key::Left
            || events.last().0 == Key::BackTab) {
            1int
        } else {
            0int
        }
    }
}

/// The state after a sequence of key events, each a key and whether it was a
/// press, applied in order.
pub open spec fn after_keys(a: App, events: Seq<(Key, bool)>) -> App
    decreases events.len(),
{
    if events.len() == 0 {
        a
    } else {
        after_key(after_keys(a, events.drop_last()), events.last().0, events.last().1)
    }
}

proof fn lemma_tab_at_index(i: int)
    ensures
        tab_index(tab_at(i)) == i % 4,
{
}

/// After any sequence of key events, the tab shown is the starting tab moved
/// right once per press of `Right` or `Tab` and left once per press of `Left`
/// or `BackTab`, around the four tabs; releases, repeats and all other keys
/// leave the tab alone. From a fresh viewer (on `Summary`) the tab's index is
/// `(a - b) mod 4` after `a` right and `b` left presses.
pub proof fn lemma_tab_after_presses(a: App, events: Seq<(Key, bool)>)
    ensures
        tab_index(after_keys(a, events).active_tab) == (tab_index(a.active_tab) + right_presses(events)
            - left_presses(events)) % 4,
    decreases events.len(),
{
    if events.len() > 0 {
        let prev = events.drop_last();
        lemma_tab_after_presses(a, prev);
        let b = after_keys(a, prev);
        let x = tab_index(a.active_tab) + right_presses(prev) - left_presses(prev);
        let (key, pressed) = events.last();
        lemma_tab_at_index(tab_index(b.active_tab) + 1);
        lemma_tab_at_index(tab_index(b.active_tab) + 3);
        assert(tab_index(b.active_tab) == x % 4);
        assert((x % 4 + 1) % 4 == (x + 1) % 4);
        assert((x % 4 + 3) % 4 == (x - 1) % 4);
        if pressed {
            match key {
                Key::Char(c) => {
                    if c == 'j' {
                        assert(after_key(b, key, pressed).active_tab == b.active_tab);
                    } else if c == 'k' {
                        assert(after_key(b, key, pressed).active_tab == b.active_tab);
                    }
                },
                _ => {},
            }
        }
    }
}

/// Over any sequence of key events, the file list moves only while the
/// `Files` tab is shown: if it is never shown, the scroll offset stays.
pub proof fn lemma_scroll_needs_files_tab(a: App, events: Seq<(Key, bool)>)
    requires
        forall|i: int| 0 <= i <= events.len() ==> #[trigger] after_keys(a, events.take(i)).active_tab != Tab::Files,
    ensures
        after_keys(a, events).file_scroll == a.file_scroll,
    decreases events.len(),
{
    if events.len() > 0 {
        let prev = events.drop_last();
        assert forall|i: int| 0 <= i <= prev.len() implies #[trigger] after_keys(a, prev.take(i)).active_tab
            != Tab::Files by {
            assert(prev.take(i) =~= events.take(i));
        }
        lemma_scroll_needs_files_tab(a, prev);
        assert(events.take(prev.len() as int) =~= prev);
        lemma_scroll_only_on_files(after_keys(a, prev), events.last().0, events.last().1);
        assert(events.take(events.len() as int) =~= events);
    }
}

/// A key event that is not a press changes nothing, whatever the key.
pub proof fn lemma_release_changes_nothing(a: App, key: Key)
    ensures
        after_key(a, key, false) == a,
{
}

} // verus!

use vstd::prelude::*;

verus! {

/// Milliseconds since the Unix epoch.
pub type Timestamp = u64;

/// The identifier of a chat message.
pub type MessageId = [u8; 32];

/// A chat line as the message buffer orders it. `render` is what the renderer keeps
/// for the line (its shaped glyphs, atlas and cached mesh); the buffer never reads it.
#[derive(Clone)]
pub struct PrivMessage<R> {
    pub timestamp: Timestamp,
    pub id: MessageId,
    pub nick: String,
    pub text: String,
    pub is_selected: bool,
    pub render: R,
}

impl<R> PrivMessage<R> {
    /// A new, unselected chat line.
    pub fn new(
        timestamp: Timestamp,
        id: MessageId,
        nick: String,
        text: String,
        render: R,
    ) -> (msg: PrivMessage<R>)
        ensures
            msg.timestamp == timestamp,
            msg.id == id,
            msg.nick == nick,
            msg.text == text,
            !msg.is_selected,
            msg.render == render,
    {
        PrivMessage { timestamp, id, nick, text, is_selected: false, render }
    }

    /// Marks the line as selected.
    pub fn select(&mut self)
        ensures
            final(self).is_selected,
            final(self).timestamp == old(self).timestamp,
            final(self).id == old(self).id,
            final(self).nick == old(self).nick,
            final(self).text == old(self).text,
            final(self).render == old(self).render,
    {
        self.is_selected = true;
    }

    /// The text that is shaped for the line: the nick, a space, then the message.
    pub fn line_text(&self) -> (s: String)
        ensures
            s@ == self.nick@ + seq![' '] + self.text@,
    {
        let mut s = self.nick.clone();
        s.append(" ");
        s.append(self.text.as_str());
        proof {
            reveal_strlit(" ");
        }
        s
    }
}

/// An entry of the chat as it is drawn, most recent first: a chat line, by its
/// index in the buffer, or the separator of a day, by its day number.
#[derive(Clone, Copy, PartialEq, Eq, Debug)]
pub enum Message {
    Priv(usize),
    Date(i32),
}

impl Message {
    /// Returns true for a day separator.
    pub fn is_date(&self) -> (b: bool)
        ensures
            b == (*self is Date),
    {
        match self {
            Message::Priv(_) => false,
            Message::Date(_) => true,
        }
    }
}

/// The timestamps never grow from one line to the next: the most recent line comes first.
pub open spec fn newest_first<R>(msgs: Seq<PrivMessage<R>>) -> bool {
    forall|i: int, j: int|
        0 <= i <= j < msgs.len() ==> #[trigger] msgs[i].timestamp >= #[trigger] msgs[j].timestamp
}

/// The entries drawn for the first `k` lines, given the day of each line: a day's
/// separator stands after its last line, before the first line of an older day.
pub open spec fn date_layout_prefix(days: Seq<i32>, k: nat) -> Seq<Message>
    decreases k,
{
    if k == 0 {
        seq![]
    } else {
        let i = k - 1;
        let before = date_layout_prefix(days, i as nat);
        let with_date = if i > 0 && days[i - 1] != days[i] {
            before.push(Message::Date(days[i - 1]))
        } else {
            before
        };
        with_date.push(Message::Priv(i as usize))
    }
}

/// The entries drawn for lines whose days are `days`: every line in order, with the
/// separator of each day after that day's lines.
pub open spec fn date_layout(days: Seq<i32>) -> Seq<Message> {
    if days.len() == 0 {
        seq![]
    } else {
        date_layout_prefix(days, days.len()).push(Message::Date(days.last()))
    }
}

/// The indices of the chat lines among the entries, in order.
pub open spec fn line_indices(items: Seq<Message>) -> Seq<usize>
    decreases items.len(),
{
    if items.len() == 0 {
        seq![]
    } else {
        let rest = line_indices(items.drop_last());
        match items.last() {
            Message::Priv(i) => rest.push(i),
            Message::Date(_) => rest,
        }
    }
}

/// The indices of the lines among the first entries, for `k` lines: `0, 1, .., k - 1`.
proof fn lemma_prefix_lines_in_order(days: Seq<i32>, k: nat)
    requires
        k <= days.len(),
        days.len() <= usize::MAX,
    ensures
        line_indices(date_layout_prefix(days, k)) == Seq::new(k, |i: int| i as usize),
    decreases k,
{
    if k > 0 {
        let i = k - 1;
        let before = date_layout_prefix(days, i as nat);
        lemma_prefix_lines_in_order(days, i as nat);
        if i > 0 && days[i - 1] != days[i] {
            let with_date = before.push(Message::Date(days[i - 1]));
            assert(with_date.drop_last() =~= before);
            assert(line_indices(with_date) == line_indices(before));
            assert(with_date.push(Message::Priv(i as usize)).drop_last() =~= with_date);
        } else {
            assert(before.push(Message::Priv(i as usize)).drop_last() =~= before);
        }
        assert(line_indices(date_layout_prefix(days, k)) =~= Seq::new(k, |i: int| i as usize));
    }
}

/// Every chat line is drawn exactly once and in the order of the buffer: leaving out
/// the day separators, the entries are the lines `0, 1, .., n - 1`.
pub proof fn lemma_layout_lines_in_order(days: Seq<i32>)
    requires
        days.len() <= usize::MAX,
    ensures
        line_indices(date_layout(days)) == Seq::new(days.len(), |i: int| i as usize),
{
    lemma_prefix_lines_in_order(days, days.len());
    if days.len() > 0 {
        let p = date_layout_prefix(days, days.len());
        assert(p.push(Message::Date(days.last())).drop_last() =~= p);
    }
}

/// The number of changes of day among the first `k` lines: the `i` with `0 < i < k`
/// whose day differs from that of line `i - 1`.
pub open spec fn day_changes(days: Seq<i32>, k: nat) -> nat
    decreases k,
{
    if k <= 1 {
        0
    } else {
        day_changes(days, (k - 1) as nat) + if days[k - 2] != days[k - 1] {
            1nat
        } else {
            0nat
        }
    }
}

/// The count of changes of day never shrinks as more lines are counted.
proof fn lemma_day_changes_monotonic(days: Seq<i32>, j: nat, k: nat)
    requires
        j <= k,
    ensures
        day_changes(days, j) <= day_changes(days, k),
    decreases k,
{
    if j < k {
        lemma_day_changes_monotonic(days, j, (k - 1) as nat);
    }
}

/// Where the entries of the first `k` lines stand: line `j` after the `j` lines and the
/// separators before it, and after a line whose successor has another day, that day's
/// separator.
proof fn lemma_prefix_positions(days: Seq<i32>, k: nat)
    requires
        k <= days.len(),
        days.len() <= usize::MAX,
    ensures
        date_layout_prefix(days, k).len() == k + day_changes(days, k),
        forall|j: int|
            0 <= j < k ==> j + day_changes(days, (j + 1) as nat) < date_layout_prefix(days, k).len()
                && #[trigger] date_layout_prefix(days, k)[j + day_changes(days, (j + 1) as nat)]
                == Message::Priv(j as usize),
        forall|j: int|
            0 <= j && j + 1 < k && days[j] != days[j + 1] ==> #[trigger] date_layout_prefix(days, k)[j
                + day_changes(days, (j + 1) as nat) + 1] == Message::Date(days[j]),
    decreases k,
{
    if k > 0 {
        let i = (k - 1) as nat;
        lemma_prefix_positions(days, i);
        let before = date_layout_prefix(days, i);
        let cur = date_layout_prefix(days, k);
        assert(day_changes(days, k) == day_changes(days, i) + if i > 0 && days[i - 1] != days[i as int] {
            1nat
        } else {
            0nat
        });
        assert forall|j: int| 0 <= j < i implies #[trigger] cur[j] == before[j] by {}
        assert forall|j: int| 0 <= j < k implies j + day_changes(days, (j + 1) as nat) < cur.len()
            && #[trigger] cur[j + day_changes(days, (j + 1) as nat)] == Message::Priv(j as usize) by {
            if j < i {
                lemma_day_changes_monotonic(days, (j + 1) as nat, i);
                assert(cur[j + day_changes(days, (j + 1) as nat)] == before[j + day_changes(
                    days,
                    (j + 1) as nat,
                )]);
            }
        }
        assert forall|j: int|
            0 <= j && j + 1 < k && days[j] != days[j + 1] implies #[trigger] cur[j + day_changes(
            days,
            (j + 1) as nat,
        ) + 1] == Message::Date(days[j]) by {
            if j + 1 < i {
                lemma_day_changes_monotonic(days, (j + 2) as nat, i);
                assert(day_changes(days, (j + 2) as nat) == day_changes(days, (j + 1) as nat) + 1);
                assert(cur[j + day_changes(days, (j + 1) as nat) + 1] == before[j + day_changes(
                    days,
                    (j + 1) as nat,
                ) + 1]);
            } else {
                assert(j + 1 == i);
            }
        }
    }
}

/// Where every entry of the layout stands, for a non-empty list of days. There are
/// as many entries as lines, plus one separator for each change of day, plus the
/// separator of the oldest line's day, which comes last. Line `j` stands after the `j`
/// lines and the separators before it; right after a line whose successor has another
/// day stands the separator of that line's day.
pub proof fn lemma_layout_positions(days: Seq<i32>)
    requires
        0 < days.len() <= usize::MAX,
    ensures
        date_layout(days).len() == days.len() + day_changes(days, days.len()) + 1,
        date_layout(days).last() == Message::Date(days.last()),
        forall|j: int|
            0 <= j < days.len() ==> #[trigger] date_layout(days)[j + day_changes(days, (j + 1) as nat)]
                == Message::Priv(j as usize),
        forall|j: int|
            0 <= j && j + 1 < days.len() && days[j] != days[j + 1] ==> #[trigger] date_layout(days)[j
                + day_changes(days, (j + 1) as nat) + 1] == Message::Date(days[j]),
{
    lemma_prefix_positions(days, days.len());
    let p = date_layout_prefix(days, days.len());
    let full = date_layout(days);
    assert forall|m: int| 0 <= m < p.len() implies #[trigger] full[m] == p[m] by {}
    assert forall|j: int| 0 <= j < days.len() implies #[trigger] full[j + day_changes(
        days,
        (j + 1) as nat,
    )] == Message::Priv(j as usize) by {
        assert(full[j + day_changes(days, (j + 1) as nat)] == p[j + day_changes(days, (j + 1) as nat)]);
    }
    assert forall|j: int| 0 <= j && j + 1 < days.len() && days[j] != days[j + 1] implies #[trigger] full[j
        + day_changes(days, (j + 1) as nat) + 1] == Message::Date(days[j]) by {
        lemma_prefix_positions(days, days.len());
        assert(p[j + day_changes(days, (j + 1) as nat) + 1] == Message::Date(days[j]));
        lemma_day_changes_monotonic(days, (j + 2) as nat, days.len());
        assert(day_changes(days, (j + 2) as nat) == day_changes(days, (j + 1) as nat) + 1);
    }
}

/// The colours read from a flat list of components, four at a time. Colour `k` is
/// pushed when component `4 * k + 4` is read: it holds that component first, then
/// components `4 * k + 1`, `4 * k + 2` and `4 * k + 3`; a trailing partial colour is
/// not pushed.
pub open spec fn nick_color_chunks<T>(values: Seq<T>) -> Seq<Seq<T>> {
    let count: int = if values.len() == 0 {
        0
    } else {
        (values.len() - 1) / 4
    };
    Seq::new(
        count as nat,
        |k: int| seq![values[4 * k + 4], values[4 * k + 1], values[4 * k + 2], values[4 * k + 3]],
    )
}

/// One colour is read for each complete group of four components after the first, and
/// no more, however long the list: with `c` colours read from `n > 0` components,
/// `4c + 1 <= n <= 4c + 4`. Colour `k` takes component `4k + 4` first, then components
/// `4k + 1`, `4k + 2` and `4k + 3`, all of which exist.
pub proof fn lemma_nick_color_chunks<T>(values: Seq<T>)
    ensures
        values.len() == 0 ==> nick_color_chunks(values).len() == 0,
        values.len() > 0 ==> 4 * nick_color_chunks(values).len() + 1 <= values.len() <= 4
            * nick_color_chunks(values).len() + 4,
        forall|k: int|
            0 <= k < nick_color_chunks(values).len() ==> 4 * k + 4 < values.len() && (
            #[trigger] nick_color_chunks(values)[k]) == seq![
                values[4 * k + 4],
                values[4 * k + 1],
                values[4 * k + 2],
                values[4 * k + 3],
            ],
{
}

/// Groups colour components into colours, as the nick colour property is read.
pub fn read_nick_colors<T: Copy>(values: &Vec<T>, zero: T) -> (colors: Vec<[T; 4]>)
    ensures
        colors@.len() == nick_color_chunks(values@).len(),
        forall|k: int|
            0 <= k < colors@.len() ==> (#[trigger] colors@[k])@ == nick_color_chunks(values@)[k],
        values@.len() == 0 ==> colors@.len() == 0,
        values@.len() > 0 ==> 4 * colors@.len() + 1 <= values@.len() <= 4 * colors@.len() + 4,
        forall|k: int|
            0 <= k < colors@.len() ==> (#[trigger] colors@[k])@ == seq![
                values@[4 * k + 4],
                values@[4 * k + 1],
                values@[4 * k + 2],
                values@[4 * k + 3],
            ],
{
    proof {
        lemma_nick_color_chunks(values@);
    }
    let mut colors: Vec<[T; 4]> = Vec::new();
    let mut color: [T; 4] = [zero, zero, zero, zero];
    let n = values.len();
    for i in 0..n
        invariant
            n == values@.len(),
            colors@.len() == (if i == 0 {
                0
            } else {
                (i - 1) / 4
            }),
            forall|k: int|
                0 <= k < colors@.len() ==> (#[trigger] colors@[k])@ == nick_color_chunks(values@)[k],
            forall|p: int|
                1 <= p < 4 && i > 0 && (i % 4 == 0 || p < i % 4) ==> #[trigger] color@[p] == values@[(
                i - (if i % 4 == 0 {
                    4
                } else {
                    i % 4
                })) + p],
    {
        color[i % 4] = values[i];
        if i > 0 && i % 4 == 0 {
            colors.push(color);
            color = [zero, zero, zero, zero];
        }
    }
    colors
}

/// The chat lines of a view, most recent first.
pub struct MessageBuffer<R> {
    msgs: Vec<PrivMessage<R>>,
}

impl<R> View for MessageBuffer<R> {
    type V = Seq<PrivMessage<R>>;

    closed spec fn view(&self) -> Seq<PrivMessage<R>> {
        self.msgs@
    }
}

impl<R> MessageBuffer<R> {
    /// An empty buffer.
    pub fn new() -> (buf: MessageBuffer<R>)
        ensures
            buf@ == Seq::<PrivMessage<R>>::empty(),
    {
        MessageBuffer { msgs: Vec::new() }
    }

    /// The chat lines, most recent first.
    pub fn messages(&self) -> (msgs: &Vec<PrivMessage<R>>)
        ensures
            msgs@ == self@,
    {
        &self.msgs
    }

    /// Marks the line at `idx` as selected.
    pub fn select(&mut self, idx: usize)
        requires
            idx < old(self)@.len(),
        ensures
            final(self)@.len() == old(self)@.len(),
            final(self)@[idx as int].is_selected,
            final(self)@[idx as int].timestamp == old(self)@[idx as int].timestamp,
            final(self)@[idx as int].id == old(self)@[idx as int].id,
            final(self)@[idx as int].nick == old(self)@[idx as int].nick,
            final(self)@[idx as int].text == old(self)@[idx as int].text,
            final(self)@[idx as int].render == old(self)@[idx as int].render,
            forall|j: int| 0 <= j < old(self)@.len() && j != idx ==> final(self)@[j] == old(self)@[j],
    {
        let mut msg = self.msgs.remove(idx);
        msg.select();
        self.msgs.insert(idx, msg);
        assert(forall|j: int| 0 <= j < idx ==> self.msgs@[j] == old(self)@[j]);
    }

    /// The timestamp of the oldest line, which is the last one.
    pub fn oldest_timestamp(&self) -> (t: Option<Timestamp>)
        ensures
            t == (if self@.len() == 0 {
                None
            } else {
                Some(self@.last().timestamp)
            }),
    {
        let n = self.msgs.len();
        if n == 0 {
            return None;
        }
        Some(self.msgs[n - 1].timestamp)
    }

    /// The timestamp of the most recent line, which is the first one.
    pub fn latest_timestamp(&self) -> (t: Option<Timestamp>)
        ensures
            t == (if self@.len() == 0 {
                None
            } else {
                Some(self@[0].timestamp)
            }),
    {
        if self.msgs.len() == 0 {
            return None;
        }
        Some(self.msgs[0].timestamp)
    }

    /// Inserts a line among the lines already loaded, before the first line that is not
    /// more recent. A line older than the oldest loaded line is not loaded (the page it
    /// belongs to is loaded later) and `None` is returned; otherwise the line's index.
    pub fn insert_privmsg(&mut self, msg: PrivMessage<R>) -> (at: Option<usize>)
        ensures
            match at {
                None => {
                    &&& old(self)@.len() > 0
                    &&& msg.timestamp < old(self)@.last().timestamp
                    &&& final(self)@ == old(self)@
                },
                Some(i) => {
                    &&& old(self)@.len() > 0 ==> msg.timestamp >= old(self)@.last().timestamp
                    &&& i <= old(self)@.len()
                    &&& old(self)@.len() > 0 ==> i < old(self)@.len() && msg.timestamp
                        >= old(self)@[i as int].timestamp
                    &&& forall|j: int| 0 <= j < i ==> msg.timestamp < #[trigger] old(self)@[j].timestamp
                    &&& final(self)@ == old(self)@.insert(i as int, msg)
                },
            },
            newest_first(old(self)@) ==> newest_first(final(self)@),
    {
        let timest = msg.timestamp;
        let ghost m = msg;
        if self.msgs.len() == 0 {
            self.msgs.push(msg);
            assert(self.msgs@ == old(self)@.insert(0, m));
            return Some(0);
        }
        // Lines are only added inside the loaded pages.

        let oldest_timest = match self.oldest_timestamp() {
            Some(t) => t,
            None => 0,
        };
        if timest < oldest_timest {
            return None;
        }
        // Timestamps go from most recent backwards.

        let n = self.msgs.len();
        let mut idx: Option<usize> = None;
        let mut i: usize = 0;
        while i < n
            invariant_except_break
                idx is None,
            invariant
                n == self.msgs@.len(),
                self.msgs@ == old(self)@,
                i <= n,
                forall|j: int| 0 <= j < i ==> timest < #[trigger] self.msgs@[j].timestamp,
                idx matches Some(k) ==> k == i && i < n && timest >= self.msgs@[i as int].timestamp,
            ensures
                idx matches Some(k) ==> k < n && timest >= self.msgs@[k as int].timestamp
                    && forall|j: int| 0 <= j < k ==> timest < #[trigger] self.msgs@[j].timestamp,
                idx is None ==> forall|j: int| 0 <= j < n ==> timest < #[trigger] self.msgs@[j].timestamp,
            decreases n - i,
        {
            if timest >= self.msgs[i].timestamp {
                idx = Some(i);
                break;
            }
            i += 1;
        }
        let idx = match idx {
            Some(idx) => idx,
            None => 0,
        };
        self.msgs.insert(idx, msg);
        proof {
            let s = old(self)@;
            let t = self.msgs@;
            assert(timest >= s[n - 1].timestamp);
            if newest_first(s) {
                assert forall|a: int, b: int| 0 <= a <= b < t.len() implies #[trigger] t[a].timestamp
                    >= #[trigger] t[b].timestamp by {
                    if a < idx && b == idx {
                        assert(timest < s[a].timestamp);
                    } else if a == idx && b > idx {
                        assert(s[b - 1].timestamp <= s[idx as int].timestamp);
                    } else if a < idx && b > idx {
                        assert(s[a].timestamp >= s[b - 1].timestamp);
                    } else if a > idx {
                        assert(s[a - 1].timestamp >= s[b - 1].timestamp);
                    } else if b < idx {
                        assert(s[a].timestamp >= s[b].timestamp);
                    }
                }
            }
        }
        Some(idx)
    }

    /// Appends a line after the oldest one, as the next page of history is loaded.
    pub fn push_privmsg(&mut self, msg: PrivMessage<R>)
        ensures
            final(self)@ == old(self)@.push(msg),
            newest_first(old(self)@) && (old(self)@.len() > 0 ==> msg.timestamp
                <= old(self)@.last().timestamp) ==> newest_first(final(self)@),
    {
        let ghost m = msg;
        self.msgs.push(msg);
        proof {
            let s = old(self)@;
            let t = self.msgs@;
            if newest_first(s) && (s.len() > 0 ==> m.timestamp <= s.last().timestamp) {
                assert forall|a: int, b: int| 0 <= a <= b < t.len() implies #[trigger] t[a].timestamp
                    >= #[trigger] t[b].timestamp by {
                    if b == s.len() && a < b {
                        assert(s[a].timestamp >= s[s.len() - 1].timestamp);
                    }
                }
            }
        }
    }

    /// The entries to draw, most recent first: every line, with a separator after the
    /// lines of each day. `days` holds the day of each line, in the order of the lines.
    pub fn msgs_with_date(&self, days: &Vec<i32>) -> (items: Vec<Message>)
        requires
            days@.len() == self@.len(),
        ensures
            items@ == date_layout(days@),
            days@.len() == 0 ==> items@.len() == 0,
            days@.len() > 0 ==> items@.len() == days@.len() + day_changes(days@, days@.len()) + 1
                && items@.last() == Message::Date(days@.last()),
            forall|j: int|
                0 <= j < days@.len() ==> #[trigger] items@[j + day_changes(days@, (j + 1) as nat)]
                    == Message::Priv(j as usize),
            forall|j: int|
                0 <= j && j + 1 < days@.len() && days@[j] != days@[j + 1] ==> #[trigger] items@[j
                    + day_changes(days@, (j + 1) as nat) + 1] == Message::Date(days@[j]),
    {
        let n = days.len();
        let mut items: Vec<Message> = Vec::new();
        let mut last_date: Option<i32> = None;
        for idx in 0..n
            invariant
                n == days@.len(),
                items@ == date_layout_prefix(days@, idx as nat),
                last_date == (if idx == 0 {
                    None
                } else {
                    Some(days@[idx - 1])
                }),
        {
            let older_date = days[idx];
            if let Some(newer_date) = last_date {
                if newer_date != older_date {
                    items.push(Message::Date(newer_date));
                }
            }
            last_date = Some(older_date);
            items.push(Message::Priv(idx));
        }
        if let Some(date) = last_date {
            items.push(Message::Date(date));
        }
        proof {
            if n > 0 {
                lemma_layout_positions(days@);
            }
        }
        items
    }
}

} // verus!

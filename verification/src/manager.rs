//! The notification manager: the daemon's stateful core. It owns the live
//! notification records, mints their ids from a monotonic counter, keeps the
//! visual stacking order equal to insertion order, and reacts to close and
//! foreground-focus events.
//!
//! The surrounding program holds one manager behind a lock shared by the
//! channel server thread, the focus-listener thread and render-triggered
//! handlers, acquiring it per logical operation and never across a render
//! call.

use vstd::prelude::*;
use vstd::string::StringExecFns;
use crate::text::{spec_dec_digits, lemma_dec_digits_injective, u32_to_string, str_eq};

verus! {

/// One live notification record. Created only by the manager; removed when
/// closed; its id is never reused within one daemon lifetime.
#[derive(Clone, Debug)]
pub struct NotificationData {
    pub id: String,
    pub window_title: String,
    pub event_display: String,
    pub message: Option<String>,
    pub source_hwnd: isize,
    pub process_tree: Vec<u32>,
    pub auto_dismiss_seconds: u32,
    pub source: String,
}

/// The mathematical value of a record.
pub struct NotificationView {
    pub id: Seq<char>,
    pub window_title: Seq<char>,
    pub event_display: Seq<char>,
    pub message: Option<Seq<char>>,
    pub source_hwnd: isize,
    pub process_tree: Seq<u32>,
    pub auto_dismiss_seconds: u32,
    pub source: Seq<char>,
}

impl View for NotificationData {
    type V = NotificationView;

    open spec fn view(&self) -> NotificationView {
        NotificationView {
            id: self.id@,
            window_title: self.window_title@,
            event_display: self.event_display@,
            message: match self.message {
                Option::Some(m) => Some(m@),
                Option::None => None,
            },
            source_hwnd: self.source_hwnd,
            process_tree: self.process_tree@,
            auto_dismiss_seconds: self.auto_dismiss_seconds,
            source: self.source@,
        }
    }
}

/// The values of a list of records.
pub open spec fn views(list: Seq<NotificationData>) -> Seq<NotificationView> {
    Seq::new(list.len(), |i: int| list[i]@)
}

/// The id minted for the `k`-th created notification: `notify-<k>`.
pub open spec fn spec_id(k: nat) -> Seq<char> {
    "notify-"@ + spec_dec_digits(k)
}

/// Different mint counts give different ids: ids never repeat within one
/// daemon lifetime, even after removals.
pub proof fn lemma_id_injective(k1: nat, k2: nat)
    requires
        k1 != k2,
    ensures
        spec_id(k1) != spec_id(k2),
{
    lemma_dec_digits_injective(k1, k2);
    if spec_id(k1) == spec_id(k2) {
        let p = "notify-"@;
        assert(spec_dec_digits(k1) =~= spec_id(k1).subrange(
            p.len() as int,
            spec_id(k1).len() as int,
        ));
        assert(spec_dec_digits(k2) =~= spec_id(k2).subrange(
            p.len() as int,
            spec_id(k2).len() as int,
        ));
    }
}

/// Whether `s` is an id the manager may have minted so far: `notify-<k>` for
/// some `k` between 1 and the counter.
pub open spec fn spec_minted_id(s: Seq<char>, counter: nat) -> bool {
    exists|k: nat| 1 <= k <= counter && s == spec_id(k)
}

/// The stateful core: the ordered list of live records (index 0 is the
/// oldest) and the monotonic counter minting ids.
#[derive(Debug)]
pub struct NotificationManager {
    pub notifications: Vec<NotificationData>,
    pub counter: u32,
}

impl NotificationManager {
    /// The manager's invariant: live records carry pairwise distinct ids,
    /// each minted from the counter's past values.
    pub open spec fn wf(&self) -> bool {
        &&& forall|i: int, j: int|
            0 <= i < j < self.notifications@.len() ==> #[trigger] self.notifications@[i].id@
                != #[trigger] self.notifications@[j].id@
        &&& forall|i: int|
            0 <= i < self.notifications@.len() ==> spec_minted_id(
                #[trigger] self.notifications@[i].id@,
                self.counter as nat,
            )
    }

    /// A fresh manager: no records, counter at zero.
    pub fn new() -> (m: NotificationManager)
        ensures
            m.notifications@.len() == 0,
            m.counter == 0,
            m.wf(),
    {
        NotificationManager { notifications: Vec::new(), counter: 0 }
    }
}

impl Default for NotificationManager {
    /// Same as a fresh manager.
    fn default() -> (m: NotificationManager)
        ensures
            m.notifications@.len() == 0,
            m.counter == 0,
            m.wf(),
    {
        NotificationManager::new()
    }
}

impl NotificationManager {

    /// Create one record: mint the next id, append the record at the end of
    /// the stack, and return a copy of it together with its stack index.
    /// The new id differs from every id minted before, removed or live.
    pub fn create_record(
        &mut self,
        window_title: String,
        event_display: String,
        message: Option<String>,
        source_hwnd: isize,
        process_tree: Vec<u32>,
        auto_dismiss_seconds: u32,
        source: String,
    ) -> (r: (NotificationData, usize))
        requires
            old(self).wf(),
            old(self).counter < u32::MAX,
        ensures
            final(self).wf(),
            final(self).counter == old(self).counter + 1,
            r.1 == old(self).notifications@.len(),
            views(final(self).notifications@) == views(old(self).notifications@).push(r.0@),
            r.0@.id == spec_id(final(self).counter as nat),
            r.0@.window_title == window_title@,
            r.0@.event_display == event_display@,
            r.0@.message == (match message {
                Option::Some(m) => Some(m@),
                Option::None => None::<Seq<char>>,
            }),
            r.0@.source_hwnd == source_hwnd,
            r.0@.process_tree == process_tree@,
            r.0@.auto_dismiss_seconds == auto_dismiss_seconds,
            r.0@.source == source@,
            forall|k: nat| 1 <= k <= old(self).counter ==> r.0@.id != spec_id(k),
    {
        let ghost old_views = views(self.notifications@);
        let ghost old_counter = self.counter as nat;
        self.counter = self.counter + 1;
        let id = mint_id(self.counter);
        let data = NotificationData {
            id,
            window_title,
            event_display,
            message,
            source_hwnd,
            process_tree,
            auto_dismiss_seconds,
            source,
        };
        let copy = clone_data(&data);
        let index = self.notifications.len();
        let ghost new_counter = self.counter as nat;
        proof {
            assert forall|k: nat| 1 <= k <= old_counter implies data@.id != spec_id(k) by {
                lemma_id_injective(k, new_counter);
            }
        }
        self.notifications.push(data);
        proof {
            let new_views = views(self.notifications@);
            assert(new_views =~= old_views.push(copy@));
            assert forall|i: int, j: int|
                0 <= i < j < self.notifications@.len() implies #[trigger] self.notifications@[i].id@
                != #[trigger] self.notifications@[j].id@ by {
                if j < self.notifications@.len() - 1 {
                    assert(old(self).notifications@[i] == self.notifications@[i]);
                    assert(old(self).notifications@[j] == self.notifications@[j]);
                } else {
                    assert(old(self).notifications@[i] == self.notifications@[i]);
                    let k = choose|k: nat|
                        1 <= k <= old_counter && old(self).notifications@[i].id@ == spec_id(k);
                    lemma_id_injective(k, new_counter);
                }
            }
            assert forall|i: int| 0 <= i < self.notifications@.len() implies spec_minted_id(
                #[trigger] self.notifications@[i].id@,
                new_counter,
            ) by {
                if i < self.notifications@.len() - 1 {
                    assert(old(self).notifications@[i] == self.notifications@[i]);
                    let k = choose|k: nat|
                        1 <= k <= old_counter && old(self).notifications@[i].id@ == spec_id(k);
                    assert(1 <= k <= new_counter && self.notifications@[i].id@ == spec_id(k));
                } else {
                    assert(self.notifications@[i].id@ == spec_id(new_counter));
                }
            }
        }
        (copy, index)
    }

    /// Remove the record with the given id, keeping the others in order so
    /// the stack collapses over the gap. Closing an id that no live record
    /// carries is a no-op, not an error.
    pub fn close_notification(&mut self, id: &str)
        ensures
            final(self).counter == old(self).counter,
            views(final(self).notifications@) == spec_close(views(old(self).notifications@), id@),
            old(self).wf() ==> final(self).wf(),
            (forall|i: int|
                0 <= i < old(self).notifications@.len() ==> #[trigger] old(
                    self,
                ).notifications@[i].id@ != id@) ==> views(final(self).notifications@) == views(
                old(self).notifications@,
            ),
    {
        let ghost old_views = views(self.notifications@);
        let n = self.notifications.len();
        let mut kept: Vec<NotificationData> = Vec::new();
        let mut i: usize = 0;
        proof {
            assert(old_views.subrange(0, 0) =~= Seq::<NotificationView>::empty());
            assert(views(kept@) =~= spec_close(old_views.subrange(0, 0), id@));
        }
        while i < n
            invariant
                i <= n,
                n == self.notifications@.len(),
                self.notifications@ == old(self).notifications@,
                old_views == views(old(self).notifications@),
                views(kept@) == spec_close(old_views.subrange(0, i as int), id@),
            decreases n - i,
        {
            let ghost prefix1 = old_views.subrange(0, i + 1);
            proof {
                assert(prefix1.drop_last() =~= old_views.subrange(0, i as int));
                assert(prefix1.last() == old_views[i as int]);
            }
            if !str_eq(self.notifications[i].id.as_str(), id) {
                let item = clone_data(&self.notifications[i]);
                kept.push(item);
                proof {
                    assert(views(kept@) =~= spec_close(old_views.subrange(0, i as int), id@).push(
                        old_views[i as int],
                    ));
                }
            }
            i = i + 1;
        }
        self.notifications = kept;
        proof {
            assert(old_views.subrange(0, n as int) =~= old_views);
            lemma_close_keeps_members(old_views, id@);
            let c = spec_close(old_views, id@);
            assert(views(self.notifications@) == c);
            if old(self).wf() {
                assert forall|i: int, j: int|
                    0 <= i < j < old_views.len() implies #[trigger] old_views[i].id
                    != #[trigger] old_views[j].id by {
                    assert(old_views[i] == old(self).notifications@[i]@);
                    assert(old_views[j] == old(self).notifications@[j]@);
                }
                lemma_close_preserves_distinct(old_views, id@);
                assert forall|i: int, j: int|
                    0 <= i < j < self.notifications@.len() implies #[trigger] self.notifications@[i].id@
                    != #[trigger] self.notifications@[j].id@ by {
                    assert(views(self.notifications@)[i] == self.notifications@[i]@);
                    assert(views(self.notifications@)[j] == self.notifications@[j]@);
                    assert(c[i].id != c[j].id);
                }
                assert forall|i: int|
                    0 <= i < self.notifications@.len() implies spec_minted_id(
                    #[trigger] self.notifications@[i].id@,
                    self.counter as nat,
                ) by {
                    assert(views(self.notifications@)[i] == self.notifications@[i]@);
                    assert(old_views.contains(c[i]));
                    let j = choose|j: int| 0 <= j < old_views.len() && old_views[j] == c[i];
                    assert(old_views[j] == old(self).notifications@[j]@);
                    assert(spec_minted_id(old(self).notifications@[j].id@, old(self).counter as nat));
                }
            }
            if forall|i: int|
                0 <= i < old(self).notifications@.len() ==> #[trigger] old(
                    self,
                ).notifications@[i].id@ != id@ {
                assert forall|i: int| 0 <= i < old_views.len() implies #[trigger] old_views[i].id
                    != id@ by {
                    assert(old_views[i] == old(self).notifications@[i]@);
                }
                lemma_close_noop(old_views, id@);
            }
        }
    }

    /// The record a render window label names, if it is live. The label is
    /// the record's id.
    pub fn get_notification_for_window(&self, window_label: &str) -> (r: Option<NotificationData>)
        ensures
            r matches Option::Some(d) ==> spec_record_for(views(self.notifications@), window_label@)
                == Some(d@),
            r is None ==> spec_record_for(views(self.notifications@), window_label@) is None,
    {
        let n = self.notifications.len();
        let ghost all = views(self.notifications@);
        let mut i: usize = 0;
        proof {
            assert(all.subrange(0, all.len() as int) =~= all);
        }
        while i < n
            invariant
                i <= n,
                n == self.notifications@.len(),
                all == views(self.notifications@),
                spec_record_for(all, window_label@) == spec_record_for(
                    all.subrange(i as int, n as int),
                    window_label@,
                ),
            decreases n - i,
        {
            proof {
                let suffix = all.subrange(i as int, n as int);
                assert(suffix[0] == all[i as int]);
                assert(suffix.drop_first() =~= all.subrange(i + 1, n as int));
            }
            if str_eq(self.notifications[i].id.as_str(), window_label) {
                return Some(clone_data(&self.notifications[i]));
            }
            i = i + 1;
        }
        None
    }

    /// The ids to auto-close when the foreground moves to `focused_hwnd`:
    /// every record whose resolved source handle equals it (possibly more
    /// than one), or none at all when the auto-close option is off.
    pub fn on_foreground_changed(&self, focused_hwnd: isize, auto_close_on_focus: bool) -> (ids:
        Vec<String>)
        ensures
            auto_close_on_focus ==> string_views(ids@) == spec_focus_close_ids(
                views(self.notifications@),
                focused_hwnd,
            ),
            !auto_close_on_focus ==> ids@.len() == 0,
    {
        let mut ids: Vec<String> = Vec::new();
        if !auto_close_on_focus {
            return ids;
        }
        let n = self.notifications.len();
        let ghost all = views(self.notifications@);
        let mut i: usize = 0;
        proof {
            assert(string_views(ids@) =~= spec_focus_close_ids(all.subrange(0, 0), focused_hwnd));
        }
        while i < n
            invariant
                i <= n,
                n == self.notifications@.len(),
                all == views(self.notifications@),
                string_views(ids@) == spec_focus_close_ids(
                    all.subrange(0, i as int),
                    focused_hwnd,
                ),
            decreases n - i,
        {
            let ghost prefix1 = all.subrange(0, i + 1);
            proof {
                assert(prefix1.drop_last() =~= all.subrange(0, i as int));
                assert(prefix1.last() == all[i as int]);
            }
            if self.notifications[i].source_hwnd == focused_hwnd {
                ids.push(self.notifications[i].id.clone());
                proof {
                    assert(string_views(ids@) =~= spec_focus_close_ids(
                        all.subrange(0, i as int),
                        focused_hwnd,
                    ).push(all[i as int].id));
                }
            }
            i = i + 1;
        }
        proof {
            assert(all.subrange(0, n as int) =~= all);
        }
        ids
    }
}

/// The values of a list of strings.
pub open spec fn string_views(list: Seq<String>) -> Seq<Seq<char>> {
    Seq::new(list.len(), |i: int| list[i]@)
}

/// The record list after closing an id: the records that carry another id,
/// in unchanged order.
pub open spec fn spec_close(list: Seq<NotificationView>, id: Seq<char>) -> Seq<NotificationView>
    decreases list.len(),
{
    if list.len() == 0 {
        Seq::empty()
    } else {
        let rest = spec_close(list.drop_last(), id);
        if list.last().id == id {
            rest
        } else {
            rest.push(list.last())
        }
    }
}

/// Closing keeps only records that were live before.
pub proof fn lemma_close_keeps_members(list: Seq<NotificationView>, id: Seq<char>)
    ensures
        forall|i: int|
            0 <= i < spec_close(list, id).len() ==> list.contains(#[trigger] spec_close(list, id)[i]),
    decreases list.len(),
{
    if list.len() > 0 {
        lemma_close_keeps_members(list.drop_last(), id);
        let rest = spec_close(list.drop_last(), id);
        let whole = spec_close(list, id);
        assert forall|i: int| 0 <= i < whole.len() implies list.contains(#[trigger] whole[i]) by {
            if i < rest.len() {
                assert(rest[i] == whole[i]);
                let j = choose|j: int|
                    0 <= j < list.drop_last().len() && list.drop_last()[j] == rest[i];
                assert(list[j] == whole[i]);
            } else {
                assert(whole[i] == list.last());
                assert(list[list.len() - 1] == list.last());
            }
        }
    }
}

/// Closing a record list with pairwise distinct ids leaves the ids pairwise
/// distinct.
pub proof fn lemma_close_preserves_distinct(list: Seq<NotificationView>, id: Seq<char>)
    requires
        forall|i: int, j: int|
            0 <= i < j < list.len() ==> #[trigger] list[i].id != #[trigger] list[j].id,
    ensures
        forall|i: int, j: int|
            0 <= i < j < spec_close(list, id).len() ==> #[trigger] spec_close(list, id)[i].id
                != #[trigger] spec_close(list, id)[j].id,
        forall|i: int|
            0 <= i < spec_close(list, id).len() ==> exists|j: int|
                0 <= j < list.len() && list[j] == #[trigger] spec_close(list, id)[i],
    decreases list.len(),
{
    lemma_close_keeps_members(list, id);
    let whole = spec_close(list, id);
    assert forall|i: int| 0 <= i < whole.len() implies exists|j: int|
        0 <= j < list.len() && list[j] == #[trigger] whole[i] by {
        assert(list.contains(whole[i]));
    }
    if list.len() > 0 {
        let shorter = list.drop_last();
        assert(forall|i: int, j: int|
            0 <= i < j < shorter.len() ==> #[trigger] shorter[i].id != #[trigger] shorter[j].id);
        lemma_close_preserves_distinct(shorter, id);
        let rest = spec_close(shorter, id);
        if list.last().id != id {
            assert forall|i: int, j: int| 0 <= i < j < whole.len() implies #[trigger] whole[i].id
                != #[trigger] whole[j].id by {
                if j < whole.len() - 1 {
                    assert(whole[i] == rest[i] && whole[j] == rest[j]);
                } else {
                    assert(whole[i] == rest[i]);
                    assert(whole[j] == list.last());
                    let m = choose|m: int| 0 <= m < shorter.len() && shorter[m] == rest[i];
                    assert(list[m] == rest[i]);
                    assert(list[list.len() - 1] == list.last());
                }
            }
        }
    }
}

/// Closing an id that no record carries changes nothing.
pub proof fn lemma_close_noop(list: Seq<NotificationView>, id: Seq<char>)
    requires
        forall|i: int| 0 <= i < list.len() ==> #[trigger] list[i].id != id,
    ensures
        spec_close(list, id) == list,
    decreases list.len(),
{
    if list.len() > 0 {
        let shorter = list.drop_last();
        assert(forall|i: int| 0 <= i < shorter.len() ==> #[trigger] shorter[i].id != shorter[i].id
            || shorter[i] == list[i]);
        assert(list[list.len() - 1] == list.last());
        lemma_close_noop(shorter, id);
        assert(spec_close(list, id) =~= list);
    }
}

/// The first record with the given id, if any.
pub open spec fn spec_record_for(list: Seq<NotificationView>, label: Seq<char>) -> Option<
    NotificationView,
>
    decreases list.len(),
{
    if list.len() == 0 {
        None
    } else if list[0].id == label {
        Some(list[0])
    } else {
        spec_record_for(list.drop_first(), label)
    }
}

/// The ids of the records whose source handle equals the newly focused
/// handle, in stack order.
pub open spec fn spec_focus_close_ids(list: Seq<NotificationView>, focused_hwnd: isize) -> Seq<
    Seq<char>,
>
    decreases list.len(),
{
    if list.len() == 0 {
        Seq::empty()
    } else {
        let rest = spec_focus_close_ids(list.drop_last(), focused_hwnd);
        if list.last().source_hwnd == focused_hwnd {
            rest.push(list.last().id)
        } else {
            rest
        }
    }
}

/// A record with the reserved 0 handle is never auto-closed by a real
/// foreground change: 0 can never equal a real foreground handle.
pub proof fn lemma_zero_handle_never_auto_closed(
    list: Seq<NotificationView>,
    focused_hwnd: isize,
    i: int,
)
    requires
        focused_hwnd != 0,
        0 <= i < list.len(),
        list[i].source_hwnd == 0,
        forall|a: int, b: int| 0 <= a < b < list.len() ==> #[trigger] list[a].id != #[trigger] list[b].id,
    ensures
        !spec_focus_close_ids(list, focused_hwnd).contains(list[i].id),
    decreases list.len(),
{
    if list.len() > 0 {
        let shorter = list.drop_last();
        let rest = spec_focus_close_ids(shorter, focused_hwnd);
        let whole = spec_focus_close_ids(list, focused_hwnd);
        if i < list.len() - 1 {
            assert(shorter[i] == list[i]);
            lemma_zero_handle_never_auto_closed(shorter, focused_hwnd, i);
            if list.last().source_hwnd == focused_hwnd {
                assert(list[list.len() - 1] == list.last());
                assert(list.last().id != list[i].id);
                assert forall|k: int| 0 <= k < whole.len() implies whole[k] != list[i].id by {
                    if k < rest.len() {
                        assert(whole[k] == rest[k]);
                        assert(!rest.contains(list[i].id));
                    }
                }
            } else {
                assert(!rest.contains(list[i].id));
            }
        } else {
            assert(list[i] == list.last());
            lemma_focus_close_ids_sources(shorter, focused_hwnd);
            assert forall|k: int| 0 <= k < whole.len() implies whole[k] != list[i].id by {
                if k < rest.len() {
                    assert(whole[k] == rest[k]);
                    assert(spec_has_record_with(shorter, focused_hwnd, rest[k]));
                    let m = choose|m: int|
                        0 <= m < shorter.len() && shorter[m].id == rest[k]
                            && #[trigger] shorter[m].source_hwnd == focused_hwnd;
                    assert(list[m] == shorter[m]);
                    assert(list[m].id != list[i].id);
                }
            }
        }
    }
}

/// Whether some record in the list carries this id and this source handle.
pub open spec fn spec_has_record_with(
    list: Seq<NotificationView>,
    hwnd: isize,
    idv: Seq<char>,
) -> bool {
    exists|m: int| 0 <= m < list.len() && list[m].id == idv && #[trigger] list[m].source_hwnd == hwnd
}

/// Every id in the focus-close list belongs to a record whose source handle
/// equals the focused handle.
proof fn lemma_focus_close_ids_sources(list: Seq<NotificationView>, focused_hwnd: isize)
    ensures
        forall|k: int|
            0 <= k < spec_focus_close_ids(list, focused_hwnd).len() ==> spec_has_record_with(
                list,
                focused_hwnd,
                #[trigger] spec_focus_close_ids(list, focused_hwnd)[k],
            ),
    decreases list.len(),
{
    if list.len() > 0 {
        let shorter = list.drop_last();
        lemma_focus_close_ids_sources(shorter, focused_hwnd);
        let rest = spec_focus_close_ids(shorter, focused_hwnd);
        let whole = spec_focus_close_ids(list, focused_hwnd);
        if list.last().source_hwnd == focused_hwnd {
            assert(whole == rest.push(list.last().id));
        } else {
            assert(whole == rest);
        }
        assert forall|k: int| 0 <= k < whole.len() implies spec_has_record_with(
            list,
            focused_hwnd,
            #[trigger] whole[k],
        ) by {
            if k < rest.len() {
                assert(whole[k] == rest[k]);
                assert(spec_has_record_with(shorter, focused_hwnd, rest[k]));
                let m = choose|m: int|
                    0 <= m < shorter.len() && shorter[m].id == rest[k]
                        && #[trigger] shorter[m].source_hwnd == focused_hwnd;
                assert(list[m] == shorter[m]);
                assert(list[m].id == whole[k] && list[m].source_hwnd == focused_hwnd);
            } else {
                assert(list.last().source_hwnd == focused_hwnd);
                assert(whole[k] == list.last().id);
                assert(list[list.len() - 1] == list.last());
                assert(list[list.len() - 1].id == whole[k] && list[list.len() - 1].source_hwnd
                    == focused_hwnd);
            }
        }
    }
}

/// Mint the id of the `counter`-th created notification: `notify-<counter>`.
fn mint_id(counter: u32) -> (s: String)
    ensures
        s@ == spec_id(counter as nat),
{
    let mut s = String::from_str("notify-");
    let digits = u32_to_string(counter);
    s.append(digits.as_str());
    s
}

/// A field-for-field copy of a record, with the same value.
fn clone_data(d: &NotificationData) -> (r: NotificationData)
    ensures
        r@ == d@,
{
    let r = NotificationData {
        id: d.id.clone(),
        window_title: d.window_title.clone(),
        event_display: d.event_display.clone(),
        message: match &d.message {
            Option::Some(m) => Some(m.clone()),
            Option::None => None,
        },
        source_hwnd: d.source_hwnd,
        process_tree: d.process_tree.clone(),
        auto_dismiss_seconds: d.auto_dismiss_seconds,
        source: d.source.clone(),
    };
    proof {
        assert(r.process_tree@ =~= d.process_tree@);
    }
    r
}

} // verus!

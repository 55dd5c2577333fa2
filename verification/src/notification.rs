//! Watching session screens and injecting text when a pattern appears.
use crate::pattern;
use crate::text;
use crate::text::{chars_equal, from_chars, numbered, to_chars};
use vstd::prelude::*;
use vstd::string::*;

verus! {

/// A registered watcher.
#[derive(Debug)]
pub struct NotificationWatcher {
    /// Unique watcher identifier.
    pub id: String,
    /// Session to watch.
    pub watch_session_id: String,
    /// Pattern to look for in new screen contents.
    pub pattern: String,
    /// Text to inject when the pattern matches.
    pub inject_text: String,
    /// Session to inject into.
    pub inject_session_id: String,
    /// Whether the watcher is removed after firing.
    pub one_shot: bool,
    /// Whether the watcher has fired.
    pub fired: bool,
    /// The screen at the last check; none before the first.
    pub last_screen: Option<String>,
}

/// A watcher as a mathematical value.
pub struct WatcherView {
    pub id: Seq<char>,
    pub watch_session_id: Seq<char>,
    pub pattern: Seq<char>,
    pub inject_text: Seq<char>,
    pub inject_session_id: Seq<char>,
    pub one_shot: bool,
    pub fired: bool,
    pub last_screen: Option<Seq<char>>,
}

impl View for NotificationWatcher {
    type V = WatcherView;

    open spec fn view(&self) -> WatcherView {
        WatcherView {
            id: self.id@,
            watch_session_id: self.watch_session_id@,
            pattern: self.pattern@,
            inject_text: self.inject_text@,
            inject_session_id: self.inject_session_id@,
            one_shot: self.one_shot,
            fired: self.fired,
            last_screen: text::optional_view(self.last_screen),
        }
    }
}

/// Text to inject into a session because a watcher fired.
#[derive(Debug)]
pub struct Injection {
    /// Session to inject into.
    pub target_session_id: String,
    /// Text to inject.
    pub text: String,
    /// The watcher that fired.
    pub watcher_id: String,
}

/// An injection as a mathematical value.
pub struct InjectionView {
    pub target_session_id: Seq<char>,
    pub text: Seq<char>,
    pub watcher_id: Seq<char>,
}

impl View for Injection {
    type V = InjectionView;

    open spec fn view(&self) -> InjectionView {
        InjectionView {
            target_session_id: self.target_session_id@,
            text: self.text@,
            watcher_id: self.watcher_id@,
        }
    }
}

/// The length of the longest common prefix.
pub open spec fn common_prefix(a: Seq<char>, b: Seq<char>) -> int
    decreases a.len(),
{
    if a.len() > 0 && b.len() > 0 && a[0] == b[0] {
        1 + common_prefix(a.skip(1), b.skip(1))
    } else {
        0
    }
}

/// What is new on a screen: everything from the first character that differs from before.
pub open spec fn new_content(before: Seq<char>, screen: Seq<char>) -> Seq<char> {
    screen.skip(common_prefix(before, screen))
}

/// Whether a watcher takes part in a check of a session.
pub open spec fn watches(w: WatcherView, session: Seq<char>) -> bool {
    w.watch_session_id == session && !(w.fired && w.one_shot)
}

/// Whether new content of a screen makes a watcher fire. `found` says whether the pattern occurs
/// in the new content.
pub open spec fn fires_on(w: WatcherView, session: Seq<char>, screen: Seq<char>, found: bool) -> bool {
    watches(w, session) && (w.last_screen matches Some(before) && new_content(before, screen).len()
        > 0) && found
}

/// Whether the pattern of a watcher occurs in what is new on a screen.
pub open spec fn pattern_is_new(w: WatcherView, screen: Seq<char>) -> bool {
    w.last_screen matches Some(before) && pattern::regex_matches(
        w.pattern,
        new_content(before, screen),
    )
}

/// Whether a watcher fires on a screen.
pub open spec fn fires(w: WatcherView, session: Seq<char>, screen: Seq<char>) -> bool {
    fires_on(w, session, screen, pattern_is_new(w, screen))
}

/// A watcher after a check: it remembers the screen, and that it fired.
pub open spec fn after_check(w: WatcherView, session: Seq<char>, screen: Seq<char>, found: bool) -> WatcherView {
    if watches(w, session) {
        WatcherView {
            last_screen: Some(screen),
            fired: w.fired || fires_on(w, session, screen, found),
            ..w
        }
    } else {
        w
    }
}

/// What a watcher injects.
pub open spec fn injection_of(w: WatcherView) -> InjectionView {
    InjectionView {
        target_session_id: w.inject_session_id,
        text: w.inject_text,
        watcher_id: w.id,
    }
}

/// The injections of a check, in the order of the watchers.
pub open spec fn injections(ws: Seq<WatcherView>, session: Seq<char>, screen: Seq<char>) -> Seq<
    InjectionView,
>
    decreases ws.len(),
{
    if ws.len() == 0 {
        Seq::empty()
    } else {
        let before = injections(ws.drop_last(), session, screen);
        if fires(ws.last(), session, screen) {
            before.push(injection_of(ws.last()))
        } else {
            before
        }
    }
}

/// Whether a watcher stays registered.
pub open spec fn is_active(w: WatcherView) -> bool {
    !(w.one_shot && w.fired)
}

/// The watchers after a check.
pub open spec fn watchers_after(ws: Seq<WatcherView>, session: Seq<char>, screen: Seq<char>) -> Seq<
    WatcherView,
> {
    ws.map_values(
        |w: WatcherView| after_check(w, session, screen, pattern_is_new(w, screen)),
    ).filter(|w: WatcherView| is_active(w))
}

/// The message for a pattern that is no regular expression.
pub open spec fn invalid_pattern_message(pattern: Seq<char>, error: Seq<char>) -> Seq<char> {
    "invalid regex '"@ + pattern + "': "@ + error
}

/// A watcher as it is registered.
pub open spec fn new_watcher(
    id: Seq<char>,
    session: Seq<char>,
    pattern: Seq<char>,
    inject_text: Seq<char>,
    inject_session: Seq<char>,
    one_shot: bool,
) -> WatcherView {
    WatcherView {
        id,
        watch_session_id: session,
        pattern,
        inject_text,
        inject_session_id: inject_session,
        one_shot,
        fired: false,
        last_screen: None,
    }
}

proof fn lemma_common_prefix(a: Seq<char>, b: Seq<char>)
    ensures
        0 <= common_prefix(a, b) <= a.len(),
        common_prefix(a, b) <= b.len(),
    decreases a.len(),
{
    if a.len() > 0 && b.len() > 0 && a[0] == b[0] {
        lemma_common_prefix(a.skip(1), b.skip(1));
    }
}

/// What is new on a screen compared with an earlier one.
pub fn new_text(before: &str, screen: &str) -> (new: String)
    ensures
        new@ == new_content(before@, screen@),
{
    let a = to_chars(before);
    let b = to_chars(screen);
    let mut n: usize = 0;
    assert(a@.skip(0) =~= a@ && b@.skip(0) =~= b@);
    while n < a.len() && n < b.len() && a[n] == b[n]
        invariant
            n <= a.len(),
            n <= b.len(),
            common_prefix(a@, b@) == n + common_prefix(a@.skip(n as int), b@.skip(n as int)),
        decreases a.len() - n,
    {
        assert(a@.skip(n as int).skip(1) =~= a@.skip(n + 1));
        assert(b@.skip(n as int).skip(1) =~= b@.skip(n + 1));
        n += 1;
    }
    let tail = vstd::slice::slice_subrange(&b, n, b.len());
    assert(tail@ =~= b@.skip(n as int));
    from_chars(tail)
}

impl NotificationWatcher {
    /// Whether the watcher takes part in a check of the session.
    fn takes_part(&self, session: &[char]) -> (yes: bool)
        ensures
            yes == watches(self@, session@),
    {
        chars_equal(session, self.watch_session_id.as_str()) && !(self.fired && self.one_shot)
    }

    /// Checks a screen, `found` saying whether the pattern occurs in what is new on it. Returns
    /// whether the watcher fires.
    pub fn check(&mut self, session_id: &str, screen_content: &str, found: bool) -> (fired: bool)
        ensures
            fired == fires_on(old(self)@, session_id@, screen_content@, found),
            final(self)@ == after_check(old(self)@, session_id@, screen_content@, found),
    {
        let session = to_chars(session_id);
        if !self.takes_part(&session) {
            return false;
        }
        let is_new: bool = match &self.last_screen {
            None => false,
            Some(before) => {
                proof {
                    lemma_common_prefix(before@, screen_content@);
                }
                let new = new_text(before.as_str(), screen_content);
                let chars = to_chars(new.as_str());
                chars.len() > 0
            },
        };
        self.last_screen = Some(screen_content.to_string());
        if is_new && found {
            self.fired = true;
            true
        } else {
            false
        }
    }
}

/// Registry of watchers.
pub struct NotificationRegistry {
    watchers: Vec<NotificationWatcher>,
    next_id: u64,
}

/// The views of a list of watchers.
pub open spec fn watcher_views(ws: Seq<NotificationWatcher>) -> Seq<WatcherView> {
    ws.map_values(|w: NotificationWatcher| w@)
}

/// The views of a list of injections.
pub open spec fn injection_views(v: Seq<Injection>) -> Seq<InjectionView> {
    v.map_values(|i: Injection| i@)
}

impl NotificationRegistry {
    /// The registered watchers, in order of registration.
    pub closed spec fn active(&self) -> Seq<WatcherView> {
        watcher_views(self.watchers@)
    }

    /// The number that the next watcher gets.
    pub closed spec fn next(&self) -> nat {
        self.next_id as nat
    }

    /// A registry without watchers.
    pub fn new() -> (r: Self)
        ensures
            r.active() == Seq::<WatcherView>::empty(),
            r.next() == 1,
    {
        let r = NotificationRegistry { watchers: Vec::new(), next_id: 1 };
        assert(r.active() =~= Seq::empty());
        r
    }

    /// Whether there is an identifier left for a watcher.
    pub fn can_add_watcher(&self) -> (b: bool)
        ensures
            b == (self.next() < u64::MAX),
    {
        self.next_id < u64::MAX
    }

    /// Registers a watcher and returns its identifier; fails where the pattern is no regular
    /// expression.
    pub fn add_watcher(
        &mut self,
        watch_session_id: String,
        pattern: &str,
        inject_text: String,
        inject_session_id: String,
        one_shot: bool,
    ) -> (id: Result<String, String>)
        requires
            old(self).next() < u64::MAX,
        ensures
            match id {
                Ok(id) => {
                    &&& pattern::regex_error(pattern@) is None
                    &&& id@ == "notify-"@ + text::decimal(old(self).next())
                    &&& final(self).next() == old(self).next() + 1
                    &&& final(self).active() == old(self).active().push(
                        new_watcher(
                            id@,
                            watch_session_id@,
                            pattern@,
                            inject_text@,
                            inject_session_id@,
                            one_shot,
                        ),
                    )
                },
                Err(message) => {
                    &&& pattern::regex_error(pattern@) matches Some(e) && message@
                        == invalid_pattern_message(pattern@, e)
                    &&& *final(self) == *old(self)
                },
            },
    {
        let error = pattern::pattern_error(pattern);
        self.add_checked_watcher(
            watch_session_id,
            pattern,
            inject_text,
            inject_session_id,
            one_shot,
            error,
        )
    }

    /// Registers a watcher whose pattern was compiled with the given error, if any.
    pub fn add_checked_watcher(
        &mut self,
        watch_session_id: String,
        pattern: &str,
        inject_text: String,
        inject_session_id: String,
        one_shot: bool,
        error: Option<String>,
    ) -> (id: Result<String, String>)
        requires
            old(self).next() < u64::MAX,
        ensures
            match id {
                Ok(id) => {
                    &&& error is None
                    &&& id@ == "notify-"@ + text::decimal(old(self).next())
                    &&& final(self).next() == old(self).next() + 1
                    &&& final(self).active() == old(self).active().push(
                        new_watcher(
                            id@,
                            watch_session_id@,
                            pattern@,
                            inject_text@,
                            inject_session_id@,
                            one_shot,
                        ),
                    )
                },
                Err(message) => {
                    &&& error matches Some(e) && message@ == invalid_pattern_message(pattern@, e@)
                    &&& *final(self) == *old(self)
                },
            },
    {
        match error {
            Some(e) => {
                let mut message = "invalid regex '".to_string();
                message.append(pattern);
                message.append("': ");
                message.append(e.as_str());
                return Err(message);
            },
            None => {},
        }
        let id = numbered("notify-", self.next_id);
        self.next_id = self.next_id + 1;
        let w = NotificationWatcher {
            id: id.clone(),
            watch_session_id,
            pattern: pattern.to_string(),
            inject_text,
            inject_session_id,
            one_shot,
            fired: false,
            last_screen: None,
        };
        let ghost before = self.watchers@;
        self.watchers.push(w);
        assert(watcher_views(self.watchers@) =~= watcher_views(before).push(w@));
        Ok(id)
    }

    /// Removes the watcher with the identifier. Returns whether there was one.
    pub fn remove_watcher(&mut self, id: &str) -> (removed: bool)
        ensures
            final(self).next() == old(self).next(),
            final(self).active() == old(self).active().filter(|w: WatcherView| w.id != id@),
            removed == (exists|i: int|
                0 <= i < old(self).active().len() && (#[trigger] old(self).active()[i]).id == id@),
    {
        let wanted = to_chars(id);
        let ghost start = self.active();
        let ghost keep = |w: WatcherView| w.id != id@;
        let mut removed: bool = false;
        let mut i: usize = 0;
        let ghost mut k: int = 0;
        assert(start.take(0).filter(keep) =~= Seq::empty()) by {
            reveal(Seq::filter);
        }
        assert(start.skip(0) =~= start);
        assert(self.active().take(0) =~= Seq::empty());
        while i < self.watchers.len()
            invariant
                i <= self.watchers.len(),
                0 <= k <= start.len(),
                wanted@ == id@,
                keep == (|w: WatcherView| w.id != id@),
                start == old(self).active(),
                self.next_id == old(self).next_id,
                self.active().take(i as int) == start.take(k).filter(keep),
                self.active().skip(i as int) == start.skip(k),
                removed == (exists|j: int| 0 <= j < k && (#[trigger] start[j]).id == id@),
            decreases self.watchers.len() - i,
        {
            let ghost now = self.active();
            proof {
                assert(now[i as int] == self.watchers@[i as int]@);
                assert(now.skip(i as int).len() == start.skip(k).len());
                assert(now.skip(i as int)[0] == start.skip(k)[0]);
                assert(start[k] == now[i as int]);
                assert(start.take(k + 1).drop_last() =~= start.take(k));
                reveal(Seq::filter);
                assert(start.skip(k).skip(1) =~= start.skip(k + 1));
                assert(now.skip(i as int).skip(1) =~= now.skip(i + 1));
            }
            if chars_equal(&wanted, self.watchers[i].id.as_str()) {
                self.watchers.remove(i);
                removed = true;
                assert(self.active() =~= now.remove(i as int));
                assert(self.active().take(i as int) =~= now.take(i as int));
                assert(self.active().skip(i as int) =~= now.skip(i + 1));
                assert(start[k].id == id@);
            } else {
                assert(now.take(i + 1) =~= now.take(i as int).push(now[i as int]));
                i += 1;
            }
            proof {
                k = k + 1;
            }
        }
        proof {
            assert(self.active().skip(i as int) =~= Seq::empty());
            assert(start.skip(k).len() == 0);
            assert(start.take(k) =~= start);
            assert(self.active().take(i as int) =~= self.active());
        }
        removed
    }

    /// All registered watchers.
    pub fn list_watchers(&self) -> (ws: &Vec<NotificationWatcher>)
        ensures
            watcher_views(ws@) == self.active(),
    {
        &self.watchers
    }

    /// Checks a session's screen against the watchers of that session and returns what to inject.
    ///
    /// The first check of a watcher only remembers the screen. Later ones look for the pattern in
    /// what is new since the last check. A one-shot watcher that fires is removed.
    pub fn check_session(&mut self, session_id: &str, screen_content: &str) -> (result: Vec<
        Injection,
    >)
        ensures
            final(self).next() == old(self).next(),
            injection_views(result@) == injections(
                old(self).active(),
                session_id@,
                screen_content@,
            ),
            final(self).active() == watchers_after(
                old(self).active(),
                session_id@,
                screen_content@,
            ),
    {
        let mut result: Vec<Injection> = Vec::new();
        let ghost start = self.active();
        let ghost session = session_id@;
        let ghost screen = screen_content@;
        let mut i: usize = 0;
        assert(start.take(0) =~= Seq::empty());
        assert(injection_views(result@) =~= Seq::empty());
        while i < self.watchers.len()
            invariant
                i <= self.watchers.len(),
                self.watchers.len() == start.len(),
                self.next_id == old(self).next_id,
                session == session_id@,
                screen == screen_content@,
                forall|k: int|
                    0 <= k < i ==> (#[trigger] self.watchers@[k])@ == after_check(
                        start[k],
                        session,
                        screen,
                        pattern_is_new(start[k], screen),
                    ),
                forall|k: int| i <= k < start.len() ==> (#[trigger] self.watchers@[k])@ == start[k],
                injection_views(result@) == injections(start.take(i as int), session, screen),
            decreases self.watchers.len() - i,
        {
            let found: bool = match &self.watchers[i].last_screen {
                None => false,
                Some(before) => {
                    let new = new_text(before.as_str(), screen_content);
                    pattern::is_match(self.watchers[i].pattern.as_str(), new.as_str())
                },
            };
            let ghost w = start[i as int];
            assert(self.watchers@[i as int]@ == w);
            assert(found == pattern_is_new(w, screen));
            assert(start.take(i + 1).drop_last() =~= start.take(i as int));
            let ghost before = self.watchers@;
            let fired: bool = self.watchers[i].check(session_id, screen_content, found);
            assert forall|k: int| 0 <= k < start.len() && k != i implies (
            #[trigger] self.watchers@[k]) == before[k] by {}
            if fired {
                let injection = Injection {
                    target_session_id: self.watchers[i].inject_session_id.clone(),
                    text: self.watchers[i].inject_text.clone(),
                    watcher_id: self.watchers[i].id.clone(),
                };
                let ghost so_far = result@;
                result.push(injection);
                assert(injection@ == injection_of(w));
                assert(injection_views(result@) =~= injection_views(so_far).push(injection@));
            }
            i += 1;
        }
        assert(start.take(i as int) =~= start);
        let ghost checked = start.map_values(
            |w: WatcherView| after_check(w, session, screen, pattern_is_new(w, screen)),
        );
        assert(self.active() =~= checked);
        self.drop_inactive();
        result
    }

    fn drop_inactive(&mut self)
        ensures
            final(self).next() == old(self).next(),
            final(self).active() == old(self).active().filter(|w: WatcherView| is_active(w)),
    {
        let ghost start = self.active();
        let ghost keep = |w: WatcherView| is_active(w);
        let mut i: usize = 0;
        let ghost mut k: int = 0;
        assert(start.take(0).filter(keep) =~= Seq::empty()) by {
            reveal(Seq::filter);
        }
        assert(start.skip(0) =~= start);
        assert(self.active().take(0) =~= Seq::empty());
        while i < self.watchers.len()
            invariant
                i <= self.watchers.len(),
                0 <= k <= start.len(),
                keep == (|w: WatcherView| is_active(w)),
                self.next_id == old(self).next_id,
                self.active().take(i as int) == start.take(k).filter(keep),
                self.active().skip(i as int) == start.skip(k),
            decreases self.watchers.len() - i,
        {
            let ghost now = self.active();
            proof {
                assert(now[i as int] == self.watchers@[i as int]@);
                assert(now.skip(i as int).len() == start.skip(k).len());
                assert(now.skip(i as int)[0] == start.skip(k)[0]);
                assert(start[k] == now[i as int]);
                assert(start.take(k + 1).drop_last() =~= start.take(k));
                reveal(Seq::filter);
                assert(start.skip(k).skip(1) =~= start.skip(k + 1));
                assert(now.skip(i as int).skip(1) =~= now.skip(i + 1));
            }
            if self.watchers[i].one_shot && self.watchers[i].fired {
                self.watchers.remove(i);
                assert(self.active() =~= now.remove(i as int));
                assert(self.active().take(i as int) =~= now.take(i as int));
                assert(self.active().skip(i as int) =~= now.skip(i + 1));
            } else {
                assert(now.take(i + 1) =~= now.take(i as int).push(now[i as int]));
                i += 1;
            }
            proof {
                k = k + 1;
            }
        }
        proof {
            assert(self.active().skip(i as int) =~= Seq::empty());
            assert(start.skip(k).len() == 0);
            assert(start.take(k) =~= start);
            assert(self.active().take(i as int) =~= self.active());
        }
    }

    /// The number of registered watchers.
    pub fn watcher_count(&self) -> (n: usize)
        ensures
            n == self.active().len(),
    {
        self.watchers.len()
    }
}

impl Default for NotificationRegistry {
    fn default() -> (r: Self)
        ensures
            r.active() == Seq::<WatcherView>::empty(),
            r.next() == 1,
    {
        NotificationRegistry::new()
    }
}

/// A pattern that is already on the screen when its watcher is registered does not fire: the first
/// check fires nothing, and registers the screen.
pub proof fn law_first_check_only_remembers(w: WatcherView, session: Seq<char>, screen: Seq<char>)
    requires
        w.last_screen is None,
    ensures
        !fires(w, session, screen),
        w.watch_session_id == session && is_active(w) ==> after_check(
            w,
            session,
            screen,
            pattern_is_new(w, screen),
        ) == (WatcherView { last_screen: Some(screen), ..w }),
{
}

/// A screen that has not changed fires nothing.
pub proof fn law_unchanged_screen_fires_nothing(
    w: WatcherView,
    session: Seq<char>,
    screen: Seq<char>,
)
    requires
        w.last_screen == Some(screen),
    ensures
        !fires(w, session, screen),
{
    lemma_common_prefix_of_itself(screen);
}

proof fn lemma_common_prefix_of_itself(s: Seq<char>)
    ensures
        common_prefix(s, s) == s.len(),
    decreases s.len(),
{
    if s.len() > 0 {
        lemma_common_prefix_of_itself(s.skip(1));
    }
}

/// Watchers of other sessions are left as they are.
pub proof fn law_other_sessions_are_untouched(
    w: WatcherView,
    session: Seq<char>,
    screen: Seq<char>,
)
    requires
        w.watch_session_id != session,
    ensures
        !fires(w, session, screen),
        after_check(w, session, screen, pattern_is_new(w, screen)) == w,
{
}

/// After a check no one-shot watcher is left that has fired.
pub proof fn law_fired_one_shots_are_gone(
    ws: Seq<WatcherView>,
    session: Seq<char>,
    screen: Seq<char>,
)
    ensures
        forall|i: int|
            0 <= i < watchers_after(ws, session, screen).len() ==> is_active(
                #[trigger] watchers_after(ws, session, screen)[i],
            ),
{
    let checked = ws.map_values(
        |w: WatcherView| after_check(w, session, screen, pattern_is_new(w, screen)),
    );
    let keep = |w: WatcherView| is_active(w);
    assert forall|i: int| 0 <= i < watchers_after(ws, session, screen).len() implies is_active(
        #[trigger] watchers_after(ws, session, screen)[i],
    ) by {
        checked.lemma_filter_pred(keep, i);
    }
}

/// Whether two texts agree on their first `k` characters and no further.
pub open spec fn part_at(before: Seq<char>, screen: Seq<char>, k: int) -> bool {
    &&& 0 <= k <= before.len()
    &&& k <= screen.len()
    &&& forall|i: int| 0 <= i < k ==> before[i] == screen[i]
    &&& k < before.len() && k < screen.len() ==> before[k] != screen[k]
}

/// What is new on a screen is all that stands behind the longest start that it has in common with
/// the screen before. Where the first characters differ, all of it is new.
pub proof fn law_new_is_what_follows_the_common_start(
    before: Seq<char>,
    screen: Seq<char>,
    k: int,
)
    requires
        part_at(before, screen, k),
    ensures
        new_content(before, screen) == screen.skip(k),
        k == 0 ==> new_content(before, screen) == screen,
{
    lemma_common_prefix_at(before, screen, k);
    assert(screen.skip(0) =~= screen);
}

proof fn lemma_common_prefix_at(a: Seq<char>, b: Seq<char>, k: int)
    requires
        part_at(a, b, k),
    ensures
        common_prefix(a, b) == k,
    decreases k,
{
    if k > 0 {
        assert forall|i: int| 0 <= i < k - 1 implies a.skip(1)[i] == b.skip(1)[i] by {
            assert(a[i + 1] == b[i + 1]);
        }
        assert(a[0] == b[0]);
        lemma_common_prefix_at(a.skip(1), b.skip(1), k - 1);
    }
}

/// A watcher that has seen a screen fires on the next one of its session exactly when there is
/// something new on it, behind the start that both have in common, and its pattern matches that;
/// a one-shot watcher fires but once.
pub proof fn law_watchers_fire_on_what_is_new(
    w: WatcherView,
    session: Seq<char>,
    before: Seq<char>,
    screen: Seq<char>,
    k: int,
)
    requires
        w.last_screen == Some(before),
        part_at(before, screen, k),
    ensures
        fires(w, session, screen) <==> (w.watch_session_id == session && !(w.one_shot && w.fired)
            && k < screen.len() && pattern::regex_matches(w.pattern, screen.skip(k))),
{
    law_new_is_what_follows_the_common_start(before, screen, k);
}

/// Each watcher that fires injects its own text into its own target, and no other does. The
/// injections come in the order of the watchers.
pub proof fn law_each_watcher_injects_its_text(
    ws: Seq<WatcherView>,
    session: Seq<char>,
    screen: Seq<char>,
)
    ensures
        injections(ws, session, screen) == ws.filter(
            |w: WatcherView| fires(w, session, screen),
        ).map_values(
            |w: WatcherView|
                InjectionView {
                    target_session_id: w.inject_session_id,
                    text: w.inject_text,
                    watcher_id: w.id,
                },
        ),
    decreases ws.len(),
{
    let p = |w: WatcherView| fires(w, session, screen);
    let f = |w: WatcherView|
        InjectionView {
            target_session_id: w.inject_session_id,
            text: w.inject_text,
            watcher_id: w.id,
        };
    reveal(Seq::filter);
    if ws.len() == 0 {
        assert(injections(ws, session, screen) =~= ws.filter(p).map_values(f));
    } else {
        law_each_watcher_injects_its_text(ws.drop_last(), session, screen);
        let front = ws.drop_last().filter(p);
        if p(ws.last()) {
            assert(ws.filter(p) =~= front.push(ws.last()));
            assert(front.push(ws.last()).map_values(f) =~= front.map_values(f).push(f(ws.last())));
        } else {
            assert(ws.filter(p) =~= front);
        }
        assert(injections(ws, session, screen) =~= ws.filter(p).map_values(f));
    }
}

/// A watcher of the session remembers the screen for the next check and keeps all else; it is gone
/// after the check exactly when it is a one-shot watcher that fires. Watchers of other sessions
/// stay as they are.
pub proof fn law_what_a_check_leaves(w: WatcherView, session: Seq<char>, screen: Seq<char>)
    requires
        !(w.one_shot && w.fired),
    ensures
        w.watch_session_id != session ==> watchers_after(seq![w], session, screen) == seq![w],
        w.watch_session_id == session && !fires(w, session, screen) ==> watchers_after(
            seq![w],
            session,
            screen,
        ) == seq![WatcherView { last_screen: Some(screen), ..w }],
        fires(w, session, screen) && !w.one_shot ==> watchers_after(seq![w], session, screen)
            == seq![WatcherView { last_screen: Some(screen), fired: true, ..w }],
        fires(w, session, screen) && w.one_shot ==> watchers_after(seq![w], session, screen).len()
            == 0,
{
    let f = |w: WatcherView| after_check(w, session, screen, pattern_is_new(w, screen));
    let keep = |w: WatcherView| is_active(w);
    let v = f(w);
    assert(seq![w].map_values(f) =~= seq![v]);
    reveal(Seq::filter);
    assert(seq![v].drop_last() =~= Seq::empty());
    assert(seq![v].drop_last().filter(keep) =~= Seq::empty());
    if keep(v) {
        assert(seq![v].filter(keep) =~= seq![v]);
    } else {
        assert(seq![v].filter(keep) =~= Seq::empty());
    }
}

/// The watchers of a longer list are checked one by one: what a check leaves of the first ones does
/// not depend on those that follow.
pub proof fn law_watchers_are_checked_one_by_one(
    a: Seq<WatcherView>,
    b: Seq<WatcherView>,
    session: Seq<char>,
    screen: Seq<char>,
)
    ensures
        watchers_after(a + b, session, screen) == watchers_after(a, session, screen)
            + watchers_after(b, session, screen),
{
    let f = |w: WatcherView| after_check(w, session, screen, pattern_is_new(w, screen));
    let keep = |w: WatcherView| is_active(w);
    assert((a + b).map_values(f) =~= a.map_values(f) + b.map_values(f));
    Seq::filter_distributes_over_add(a.map_values(f), b.map_values(f), keep);
}

} // verus!

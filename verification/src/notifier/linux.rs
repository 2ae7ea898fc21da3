//! The notifications of the freedesktop specification: what a banner says, what
//! its buttons do, and which banner stands for which request.
//!
//! A banner never expires by itself: it is closed when its request waits no
//! more, whatever surface resolved it. A click on a banner opens the window and
//! never decides.
use crate::cards::markup::{
    escape_markup, escaped, law_escaped_text_is_inert, law_escaped_text_reads_back, read_markup,
};
use crate::command::WireDecision;
use crate::desktop_health::{contains_text, has_text};
use crate::notifier::mac::{banner_body, body_painted, body_text, law_banner_body_shows_the_target};
use crate::outside::{answers_all, cleaned, computes};
use crate::pending::{PendingDecision, PromptSummary};
use crate::text::{same_text, texts};
use vstd::prelude::*;
use vstd::string::*;

verus! {

pub const NOTIFY_NAME: &'static str = "org.freedesktop.Notifications";

pub const NOTIFY_PATH: &'static str = "/org/freedesktop/Notifications";

pub const APP_NAME: &'static str = "Vetter";

pub const DESKTOP_ENTRY: &'static str = "dev.vetter.daemon";

pub const ACTION_APPROVE: &'static str = "approve";

pub const ACTION_REJECT: &'static str = "reject";

/// The key for a click on the banner itself.
pub const ACTION_DEFAULT: &'static str = "default";

pub const SOUND_NAME: &'static str = "dialog-question";

pub const REASON_APPROVED: &'static str = "approved via notification";

pub const REASON_REJECTED: &'static str = "rejected via notification";

/// What the notification server can do.
#[derive(Debug, Clone, Copy, PartialEq, Eq, Structural)]
pub struct Capabilities {
    /// It shows buttons.
    pub actions: bool,
    /// It parses markup in the body, which then has to be escaped.
    pub body_markup: bool,
}

impl Default for Capabilities {
    fn default() -> (r: Capabilities)
        ensures
            !r.actions,
            !r.body_markup,
    {
        Capabilities { actions: false, body_markup: false }
    }
}

impl Capabilities {
    /// The capabilities that the server's list names.
    pub fn from_list(caps: &Vec<String>) -> (r: Capabilities)
        ensures
            r.actions == has_text(caps@, "actions"@),
            r.body_markup == has_text(caps@, "body-markup"@),
    {
        Capabilities {
            actions: contains_text(caps, "actions"),
            body_markup: contains_text(caps, "body-markup"),
        }
    }
}

/// The decision that the button `key` stands for. Only the two buttons have one.
pub fn decision_for_action(key: &str) -> (r: Option<PendingDecision>)
    ensures
        if key@ == ACTION_APPROVE@ {
            r matches Some(d) && d.decision == WireDecision::Allow && d.reason@ == REASON_APPROVED@
        } else if key@ == ACTION_REJECT@ {
            r matches Some(d) && d.decision == WireDecision::Deny && d.reason@ == REASON_REJECTED@
        } else {
            r is None
        },
{
    if same_text(key, ACTION_APPROVE) {
        Some(PendingDecision::allow(REASON_APPROVED))
    } else if same_text(key, ACTION_REJECT) {
        Some(PendingDecision::deny(REASON_REJECTED))
    } else {
        None
    }
}

/// What a click is for.
#[derive(Debug, PartialEq, Eq)]
pub enum ActionIntent {
    /// A button: resolve the request.
    Resolve(PendingDecision),
    /// The banner: open the window, and leave the request waiting.
    OpenWindow,
    /// A key that is not known.
    Ignore,
}

/// What a click with this key is for.
pub fn action_intent(key: &str) -> (r: ActionIntent)
    ensures
        if key@ == ACTION_DEFAULT@ {
            r is OpenWindow
        } else if key@ == ACTION_APPROVE@ {
            r matches ActionIntent::Resolve(d) && d.decision == WireDecision::Allow && d.reason@
                == REASON_APPROVED@
        } else if key@ == ACTION_REJECT@ {
            r matches ActionIntent::Resolve(d) && d.decision == WireDecision::Deny && d.reason@
                == REASON_REJECTED@
        } else {
            r is Ignore
        },
{
    if same_text(key, ACTION_DEFAULT) {
        return ActionIntent::OpenWindow;
    }
    match decision_for_action(key) {
        Some(decision) => ActionIntent::Resolve(decision),
        None => ActionIntent::Ignore,
    }
}

/// What a click does.
#[derive(Debug, PartialEq, Eq)]
pub enum ClickOutcome {
    /// Resolve the request. Only a button does.
    Resolve { request: String, decision: PendingDecision },
    /// Open the window, at the card where there still is one.
    Show { card: Option<String> },
    Nothing,
}

/// `r` is what a click with this key does, `request` being the request that the
/// banner still stands for. A button on a banner without a request does
/// nothing: no other request may be resolved in its place.
pub open spec fn clicked(key: Seq<char>, request: Option<Seq<char>>, r: ClickOutcome) -> bool {
    if key == ACTION_DEFAULT@ {
        r matches ClickOutcome::Show { card } && (match request {
            Some(id) => card matches Some(c) && c@ == id,
            None => card is None,
        })
    } else if key == ACTION_APPROVE@ || key == ACTION_REJECT@ {
        match request {
            Some(id) => r matches ClickOutcome::Resolve { request: found, decision } && found@ == id
                && decision.decision == (if key == ACTION_APPROVE@ {
                WireDecision::Allow
            } else {
                WireDecision::Deny
            }) && decision.reason@ == (if key == ACTION_APPROVE@ {
                REASON_APPROVED@
            } else {
                REASON_REJECTED@
            }),
            None => r is Nothing,
        }
    } else {
        r is Nothing
    }
}

/// The request that an optional text names.
pub open spec fn named(request: Option<&str>) -> Option<Seq<char>> {
    match request {
        Some(id) => Some(id@),
        None => None,
    }
}

/// What a click with this key does.
pub fn click_outcome(key: &str, request: Option<&str>) -> (r: ClickOutcome)
    ensures
        clicked(key@, named(request), r),
{
    proof {
        reveal_strlit("default");
        reveal_strlit("approve");
        reveal_strlit("reject");
        assert(ACTION_DEFAULT@ != ACTION_APPROVE@) by {
            assert(ACTION_DEFAULT@[0] != ACTION_APPROVE@[0]);
        }
        assert(ACTION_DEFAULT@ != ACTION_REJECT@) by {
            assert(ACTION_DEFAULT@[0] != ACTION_REJECT@[0]);
        }
        assert(ACTION_APPROVE@ != ACTION_REJECT@) by {
            assert(ACTION_APPROVE@[0] != ACTION_REJECT@[0]);
        }
    }
    match action_intent(key) {
        ActionIntent::Ignore => ClickOutcome::Nothing,
        ActionIntent::Resolve(decision) => match request {
            Some(id) => ClickOutcome::Resolve { request: id.to_owned(), decision },
            None => ClickOutcome::Nothing,
        },
        ActionIntent::OpenWindow => match request {
            Some(id) => ClickOutcome::Show { card: Some(id.to_owned()) },
            None => ClickOutcome::Show { card: None },
        },
    }
}

/// A click resolves a request only where it is one of the two buttons and the
/// banner still stands for that request: a click on the banner never decides.
pub proof fn law_only_a_button_decides(key: Seq<char>, request: Option<Seq<char>>, r: ClickOutcome)
    requires
        clicked(key, request, r),
    ensures
        r is Resolve ==> key == ACTION_APPROVE@ || key == ACTION_REJECT@,
        r is Resolve ==> request == Some(r->request@),
        key == ACTION_DEFAULT@ ==> r is Show,
{
}

/// The sound of a banner, where the user wants one.
pub fn sound_name_for(play_sound: bool) -> (r: Option<&'static str>)
    ensures
        r is Some <==> play_sound,
        r matches Some(name) ==> name@ == SOUND_NAME@,
{
    if play_sound {
        Some(SOUND_NAME)
    } else {
        None
    }
}

/// The title of a banner.
pub open spec fn banner_title(
    clean: spec_fn(Seq<char>) -> Seq<char>,
    command: Seq<char>,
    dry_run: bool,
) -> Seq<char> {
    if dry_run {
        "vet "@ + clean(command) + " (dry run)"@
    } else {
        "vet "@ + clean(command)
    }
}

/// The title and the body of a banner, made safe to paint, and the body escaped
/// where the server parses markup.
pub fn banner_text<S: Fn(&str) -> String>(
    summary: &PromptSummary,
    caps: Capabilities,
    sanitize: &S,
) -> (r: (String, String))
    requires
        answers_all(*sanitize),
    ensures
        forall|clean: spec_fn(Seq<char>) -> Seq<char>| #[trigger]
            computes(*sanitize, clean) ==> r.0@ == banner_title(
                clean,
                summary.command@,
                summary.force_prompt,
            ) && r.1@ == (if caps.body_markup {
                escaped(banner_body(clean, summary.primary_verb@, summary.primary_target@))
            } else {
                banner_body(clean, summary.primary_verb@, summary.primary_target@)
            }),
        exists|c: Seq<char>| #[trigger]
            cleaned(*sanitize, summary.command@, c) && r.0@ == (if summary.force_prompt {
                "vet "@ + c + " (dry run)"@
            } else {
                "vet "@ + c
            }),
        exists|body: Seq<char>| #[trigger]
            body_painted(*sanitize, summary.primary_verb@, summary.primary_target@, body) && r.1@ == (
            if caps.body_markup {
                escaped(body)
            } else {
                body
            }),
{
    let mut title = "vet ".to_owned();
    let command = sanitize(summary.command.as_str());
    assert(cleaned(*sanitize, summary.command@, command@));
    title.append(command.as_str());
    if summary.force_prompt {
        title.append(" (dry run)");
    }
    let body = body_text(summary, sanitize);
    let body = if caps.body_markup {
        escape_markup(body.as_str())
    } else {
        body
    };
    (title, body)
}

/// The keys and labels of a banner's buttons, in the order of the
/// specification: none where the server shows none. The key for a click on the
/// banner comes first, as it is given no button.
pub open spec fn action_texts(caps: Capabilities) -> Seq<Seq<char>> {
    if caps.actions {
        seq![
            ACTION_DEFAULT@,
            "Open Vetter"@,
            ACTION_APPROVE@,
            "Approve"@,
            ACTION_REJECT@,
            "Reject"@,
        ]
    } else {
        Seq::empty()
    }
}

/// What a list of texts holds.
pub open spec fn str_views(v: Seq<&'static str>) -> Seq<Seq<char>> {
    v.map_values(|s: &'static str| s@)
}

/// The keys and labels of a banner's buttons.
pub fn banner_actions(caps: Capabilities) -> (r: Vec<&'static str>)
    ensures
        str_views(r@) == action_texts(caps),
{
    let r: Vec<&'static str> = if caps.actions {
        vec![
            ACTION_DEFAULT,
            "Open Vetter",
            ACTION_APPROVE,
            "Approve",
            ACTION_REJECT,
            "Reject",
        ]
    } else {
        Vec::new()
    };
    assert(str_views(r@) =~= action_texts(caps));
    r
}

/// What a banner is sent with.
#[derive(Debug, PartialEq, Eq)]
pub struct BannerHints {
    /// 2, the urgency of what must not be missed.
    pub urgency: u8,
    pub desktop_entry: &'static str,
    pub category: &'static str,
    pub sound_name: Option<&'static str>,
    /// 0: the banner never expires.
    pub expire_timeout: i32,
}

/// What a banner is sent with: it stays until it is closed.
pub fn banner_hints(play_sound: bool) -> (r: BannerHints)
    ensures
        r.urgency == 2,
        r.desktop_entry@ == DESKTOP_ENTRY@,
        r.category@ == "device"@,
        r.sound_name is Some <==> play_sound,
        r.sound_name matches Some(name) ==> name@ == SOUND_NAME@,
        r.expire_timeout == 0,
{
    BannerHints {
        urgency: 2,
        desktop_entry: DESKTOP_ENTRY,
        category: "device",
        sound_name: sound_name_for(play_sound),
        expire_timeout: 0,
    }
}

/// The pairs without those of this notification or this request.
pub open spec fn apart(pairs: Seq<(u32, String)>, notification: u32, request: Seq<char>) -> Seq<
    (u32, String),
>
    decreases pairs.len(),
{
    if pairs.len() == 0 {
        Seq::empty()
    } else {
        let rest = apart(pairs.drop_last(), notification, request);
        if pairs.last().0 == notification || pairs.last().1@ == request {
            rest
        } else {
            rest.push(pairs.last())
        }
    }
}

/// Whether each notification has one request, and each request one notification.
pub open spec fn one_to_one(pairs: Seq<(u32, String)>) -> bool {
    forall|i: int, j: int|
        0 <= i < j < pairs.len() ==> (#[trigger] pairs[i]).0 != (#[trigger] pairs[j]).0 && pairs[i].1@
            != pairs[j].1@
}

/// Whether the notification stands for the request.
pub open spec fn linked(pairs: Seq<(u32, String)>, notification: u32, request: Seq<char>) -> bool {
    exists|i: int|
        0 <= i < pairs.len() && (#[trigger] pairs[i]).0 == notification && pairs[i].1@ == request
}

/// Which notification stands for which request. The numbers of notifications
/// are the server's, and used again when it restarts: linking either side anew
/// drops what it was linked to.
#[derive(Debug)]
pub struct NotificationMap {
    pairs: Vec<(u32, String)>,
}

proof fn lemma_apart(pairs: Seq<(u32, String)>, notification: u32, request: Seq<char>)
    requires
        one_to_one(pairs),
    ensures
        one_to_one(apart(pairs, notification, request)),
        forall|i: int|
            0 <= i < apart(pairs, notification, request).len() ==> {
                let p = #[trigger] apart(pairs, notification, request)[i];
                p.0 != notification && p.1@ != request && pairs.contains(p)
            },
        forall|n: u32, r: Seq<char>|
            n != notification && r != request ==> (#[trigger] linked(
                apart(pairs, notification, request),
                n,
                r,
            ) <==> linked(pairs, n, r)),
    decreases pairs.len(),
{
    if pairs.len() > 0 {
        let front = pairs.drop_last();
        let last = pairs.last();
        assert forall|i: int, j: int| 0 <= i < j < front.len() implies (#[trigger] front[i]).0 != (
        #[trigger] front[j]).0 && front[i].1@ != front[j].1@ by {
            assert(pairs[i].0 != pairs[j].0);
        }
        lemma_apart(front, notification, request);
        let rest = apart(front, notification, request);
        let all = apart(pairs, notification, request);
        assert forall|i: int| 0 <= i < all.len() implies ({
            let p = #[trigger] all[i];
            p.0 != notification && p.1@ != request && pairs.contains(p)
        }) by {
            if i < rest.len() {
                assert(all[i] == rest[i]);
                let k = choose|k: int| 0 <= k < front.len() && front[k] == rest[i];
                assert(pairs[k] == rest[i]);
            } else {
                assert(pairs[pairs.len() - 1] == last);
            }
        }
        assert forall|i: int, j: int| 0 <= i < j < all.len() implies (#[trigger] all[i]).0 != (
        #[trigger] all[j]).0 && all[i].1@ != all[j].1@ by {
            assert(all[i] == rest[i]);
            if j < rest.len() {
                assert(all[j] == rest[j]);
            } else {
                let k = choose|k: int| 0 <= k < front.len() && front[k] == rest[i];
                assert(pairs[k].0 != pairs[pairs.len() - 1].0);
            }
        }
        assert forall|n: u32, r: Seq<char>| n != notification && r != request implies (#[trigger] linked(
            all,
            n,
            r,
        ) <==> linked(pairs, n, r)) by {
            assert(linked(rest, n, r) <==> linked(front, n, r));
            if linked(all, n, r) {
                let k = choose|k: int|
                    0 <= k < all.len() && (#[trigger] all[k]).0 == n && all[k].1@ == r;
                if k < rest.len() {
                    assert(rest[k].0 == n && rest[k].1@ == r);
                    let x = choose|x: int|
                        0 <= x < front.len() && (#[trigger] front[x]).0 == n && front[x].1@ == r;
                    assert(pairs[x].0 == n);
                } else {
                    assert(pairs[pairs.len() - 1].0 == n);
                }
            }
            if linked(pairs, n, r) {
                let x = choose|x: int|
                    0 <= x < pairs.len() && (#[trigger] pairs[x]).0 == n && pairs[x].1@ == r;
                if x < front.len() {
                    assert(front[x].0 == n && front[x].1@ == r);
                    let k = choose|k: int|
                        0 <= k < rest.len() && (#[trigger] rest[k]).0 == n && rest[k].1@ == r;
                    assert(all[k].0 == n);
                } else {
                    assert(all[all.len() - 1].0 == n);
                }
            }
        }
    }
}

/// A notification stands for one request.
proof fn lemma_linked_once(pairs: Seq<(u32, String)>, notification: u32, a: Seq<char>, b: Seq<char>)
    requires
        one_to_one(pairs),
        linked(pairs, notification, a),
        linked(pairs, notification, b),
    ensures
        a == b,
{
    let i = choose|i: int|
        0 <= i < pairs.len() && (#[trigger] pairs[i]).0 == notification && pairs[i].1@ == a;
    let j = choose|j: int|
        0 <= j < pairs.len() && (#[trigger] pairs[j]).0 == notification && pairs[j].1@ == b;
    if i < j {
        assert(pairs[i].0 != pairs[j].0);
    } else if j < i {
        assert(pairs[j].0 != pairs[i].0);
    }
}

impl NotificationMap {
    /// The pairs, in the order in which they were linked.
    pub closed spec fn links(&self) -> Seq<(u32, String)> {
        self.pairs@
    }

    pub open spec fn wf(&self) -> bool {
        one_to_one(self.links())
    }

    pub fn new() -> (r: NotificationMap)
        ensures
            r.wf(),
            r.links().len() == 0,
    {
        NotificationMap { pairs: Vec::new() }
    }

    /// Drops the pairs of this notification or this request.
    fn drop_pairs(&mut self, notification: u32, request: &str)
        ensures
            final(self).links() == apart(old(self).links(), notification, request@),
    {
        let mut out: Vec<(u32, String)> = Vec::new();
        let mut i: usize = 0;
        assert(self.pairs@.take(0) =~= Seq::empty());
        while i < self.pairs.len()
            invariant
                i <= self.pairs.len(),
                self.pairs@ == old(self).pairs@,
                out@ == apart(self.pairs@.take(i as int), notification, request@),
            decreases self.pairs.len() - i,
        {
            proof {
                let now = self.pairs@.take(i + 1);
                assert(now.drop_last() =~= self.pairs@.take(i as int));
                assert(now.last() == self.pairs@[i as int]);
            }
            if self.pairs[i].0 != notification && !same_text(self.pairs[i].1.as_str(), request) {
                out.push((self.pairs[i].0, self.pairs[i].1.clone()));
            }
            i += 1;
        }
        assert(self.pairs@.take(i as int) =~= self.pairs@);
        self.pairs = out;
    }

    /// Links the notification to the request, in place of what either was
    /// linked to before.
    pub fn link(&mut self, notification: u32, request: &str)
        requires
            old(self).wf(),
        ensures
            final(self).wf(),
            final(self).links().len() > 0,
            final(self).links().drop_last() == apart(old(self).links(), notification, request@),
            final(self).links().last().0 == notification,
            final(self).links().last().1@ == request@,
    {
        proof {
            lemma_apart(self.links(), notification, request@);
        }
        self.drop_pairs(notification, request);
        let ghost rest = self.links();
        self.pairs.push((notification, request.to_owned()));
        proof {
            let all = self.links();
            assert(all.drop_last() =~= rest);
            assert forall|i: int, j: int| 0 <= i < j < all.len() implies (#[trigger] all[i]).0 != (
            #[trigger] all[j]).0 && all[i].1@ != all[j].1@ by {
                assert(all[i] == rest[i]);
                if j < rest.len() {
                    assert(all[j] == rest[j]);
                }
            }
        }
    }

    /// Where the notification stands.
    fn place_of(&self, notification: u32) -> (r: Option<usize>)
        ensures
            r is Some <==> exists|request: Seq<char>| linked(self.links(), notification, request),
            r matches Some(i) ==> i < self.links().len() && self.links()[i as int].0 == notification,
    {
        let mut i: usize = 0;
        while i < self.pairs.len()
            invariant
                i <= self.pairs.len(),
                forall|k: int| 0 <= k < i ==> (#[trigger] self.pairs@[k]).0 != notification,
            decreases self.pairs.len() - i,
        {
            if self.pairs[i].0 == notification {
                assert(linked(self.links(), notification, self.pairs@[i as int].1@));
                return Some(i);
            }
            i += 1;
        }
        None
    }

    /// The request that the notification stands for.
    pub fn request_for(&self, notification: u32) -> (r: Option<&str>)
        ensures
            r matches Some(id) ==> linked(self.links(), notification, id@),
            r is None ==> forall|request: Seq<char>| !linked(self.links(), notification, request),
    {
        match self.place_of(notification) {
            Some(i) => {
                assert(linked(self.links(), notification, self.pairs@[i as int].1@));
                Some(self.pairs[i].1.as_str())
            },
            None => None,
        }
    }

    /// Forgets the notification, and gives the request it stood for.
    pub fn forget_notification(&mut self, notification: u32) -> (r: Option<String>)
        requires
            old(self).wf(),
        ensures
            final(self).wf(),
            r matches Some(id) ==> linked(old(self).links(), notification, id@) && final(self).links()
                == apart(old(self).links(), notification, id@),
            r is None ==> final(self).links() == old(self).links() && forall|request: Seq<char>|
                !linked(old(self).links(), notification, request),
    {
        match self.place_of(notification) {
            Some(i) => {
                let request = self.pairs[i].1.clone();
                proof {
                    assert(linked(self.links(), notification, request@));
                    lemma_apart(self.links(), notification, request@);
                }
                self.drop_pairs(notification, request.as_str());
                Some(request)
            },
            None => None,
        }
    }

    /// Forgets the request, and gives the notification that stood for it.
    pub fn forget_request(&mut self, request: &str) -> (r: Option<u32>)
        requires
            old(self).wf(),
        ensures
            final(self).wf(),
            r matches Some(n) ==> linked(old(self).links(), n, request@) && final(self).links()
                == apart(old(self).links(), n, request@),
            r is None ==> final(self).links() == old(self).links() && forall|n: u32|
                !linked(old(self).links(), n, request@),
    {
        let mut i: usize = 0;
        while i < self.pairs.len()
            invariant
                i <= self.pairs.len(),
                self.wf(),
                self.pairs@ == old(self).pairs@,
                forall|k: int| 0 <= k < i ==> (#[trigger] self.pairs@[k]).1@ != request@,
            decreases self.pairs.len() - i,
        {
            if same_text(self.pairs[i].1.as_str(), request) {
                let notification = self.pairs[i].0;
                proof {
                    assert(linked(self.links(), notification, request@));
                    lemma_apart(self.links(), notification, request@);
                }
                self.drop_pairs(notification, request);
                return Some(notification);
            }
            i += 1;
        }
        None
    }

    /// The requests that a notification stands for.
    pub fn requests(&self) -> (r: Vec<String>)
        ensures
            r.len() == self.links().len(),
            forall|i: int| 0 <= i < r.len() ==> #[trigger] r@[i] == self.links()[i].1,
    {
        let mut out: Vec<String> = Vec::new();
        let mut i: usize = 0;
        while i < self.pairs.len()
            invariant
                i <= self.pairs.len(),
                out.len() == i,
                forall|k: int| 0 <= k < i ==> #[trigger] out@[k] == self.pairs@[k].1,
            decreases self.pairs.len() - i,
        {
            out.push(self.pairs[i].1.clone());
            i += 1;
        }
        out
    }

    /// Forgets everything: the numbers mean nothing to another server.
    pub fn clear(&mut self)
        ensures
            final(self).wf(),
            final(self).links().len() == 0,
    {
        self.pairs.clear();
    }

    /// How many notifications are held.
    pub fn len(&self) -> (r: usize)
        ensures
            r == self.links().len(),
    {
        self.pairs.len()
    }
}

/// Linking makes the notification stand for the request and for no other, the
/// request to be stood for by no other notification, and leaves alone every pair
/// that shares neither.
pub proof fn law_link_replaces_both_sides(
    before: Seq<(u32, String)>,
    after: Seq<(u32, String)>,
    notification: u32,
    request: Seq<char>,
    n: u32,
    r: Seq<char>,
)
    requires
        one_to_one(before),
        after.len() > 0,
        after.drop_last() == apart(before, notification, request),
        after.last().0 == notification,
        after.last().1@ == request,
    ensures
        linked(after, notification, request),
        linked(after, notification, r) ==> r == request,
        linked(after, n, request) ==> n == notification,
        n != notification && r != request ==> (linked(after, n, r) <==> linked(before, n, r)),
{
    lemma_apart(before, notification, request);
    let rest = apart(before, notification, request);
    assert(after[after.len() - 1] == after.last());
    assert forall|k: int| 0 <= k < rest.len() implies after[k] == #[trigger] rest[k] by {
        assert(after.drop_last()[k] == after[k]);
    }
    if linked(after, notification, r) {
        let k = choose|k: int|
            0 <= k < after.len() && (#[trigger] after[k]).0 == notification && after[k].1@ == r;
        if k < rest.len() {
            assert(rest[k].0 != notification);
        }
    }
    if linked(after, n, request) {
        let k = choose|k: int|
            0 <= k < after.len() && (#[trigger] after[k]).0 == n && after[k].1@ == request;
        if k < rest.len() {
            assert(rest[k].1@ != request);
        }
    }
    if n != notification && r != request {
        assert(linked(rest, n, r) <==> linked(before, n, r));
        if linked(after, n, r) {
            let k = choose|k: int|
                0 <= k < after.len() && (#[trigger] after[k]).0 == n && after[k].1@ == r;
            assert(rest[k].0 == n && rest[k].1@ == r);
        }
        if linked(rest, n, r) {
            let k = choose|k: int| 0 <= k < rest.len() && (#[trigger] rest[k]).0 == n && rest[k].1@ == r;
            assert(after[k].0 == n);
        }
    }
}

/// The requests that a banner is held for and that wait no more.
pub open spec fn stale(held: Seq<String>, pending: Seq<String>, n: nat) -> Seq<String>
    decreases n,
{
    if n == 0 {
        Seq::empty()
    } else if has_text(pending, held[n - 1]@) {
        stale(held, pending, (n - 1) as nat)
    } else {
        stale(held, pending, (n - 1) as nat).push(held[n - 1])
    }
}

/// The requests whose banner is to be closed: those that a banner is held for
/// and that wait no more, whatever resolved them.
pub fn banners_to_close(held: &Vec<String>, still_pending: &Vec<String>) -> (r: Vec<String>)
    ensures
        r@ == stale(held@, still_pending@, held@.len()),
{
    let mut out: Vec<String> = Vec::new();
    let mut i: usize = 0;
    while i < held.len()
        invariant
            i <= held.len(),
            out@ == stale(held@, still_pending@, i as nat),
        decreases held.len() - i,
    {
        if !contains_text(still_pending, held[i].as_str()) {
            out.push(held[i].clone());
        }
        i += 1;
    }
    out
}

proof fn lemma_stale(held: Seq<String>, pending: Seq<String>, n: nat, id: Seq<char>)
    requires
        n <= held.len(),
    ensures
        has_text(stale(held, pending, n), id) <==> has_text(held.take(n as int), id) && !has_text(
            pending,
            id,
        ),
    decreases n,
{
    let all = stale(held, pending, n);
    if n > 0 {
        lemma_stale(held, pending, (n - 1) as nat, id);
        let rest = stale(held, pending, (n - 1) as nat);
        let front = held.take(n - 1);
        let now = held.take(n as int);
        assert(now[n - 1] == held[n - 1]);
        if has_text(front, id) {
            let k = choose|k: int| 0 <= k < front.len() && (#[trigger] front[k])@ == id;
            assert(now[k]@ == id);
        }
        if has_text(now, id) && held[n - 1]@ != id {
            let k = choose|k: int| 0 <= k < now.len() && (#[trigger] now[k])@ == id;
            assert(front[k]@ == id);
        }
        if has_text(rest, id) {
            let k = choose|k: int| 0 <= k < rest.len() && (#[trigger] rest[k])@ == id;
            assert(all[k]@ == id);
        }
        if !has_text(pending, held[n - 1]@) {
            assert(all[rest.len() as int] == held[n - 1]);
            if has_text(all, id) && held[n - 1]@ != id {
                let k = choose|k: int| 0 <= k < all.len() && (#[trigger] all[k])@ == id;
                assert(rest[k]@ == id);
            }
        }
    }
}

/// A banner is closed exactly where one is held and its request waits no more.
pub proof fn law_stale_banners_are_closed(held: Seq<String>, pending: Seq<String>, id: Seq<char>)
    ensures
        has_text(stale(held, pending, held.len()), id) <==> has_text(held, id) && !has_text(
            pending,
            id,
        ),
{
    lemma_stale(held, pending, held.len(), id);
    assert(held.take(held.len() as int) =~= held);
}

proof fn lemma_apart_linked(pairs: Seq<(u32, String)>, notification: u32, request: Seq<char>)
    requires
        one_to_one(pairs),
        linked(pairs, notification, request),
    ensures
        forall|n: u32, r: Seq<char>| #[trigger]
            linked(apart(pairs, notification, request), n, r) <==> linked(pairs, n, r) && r != request,
{
    lemma_apart(pairs, notification, request);
    let rest = apart(pairs, notification, request);
    assert forall|n: u32, r: Seq<char>| #[trigger] linked(rest, n, r) <==> linked(pairs, n, r) && r
        != request by {
        if linked(rest, n, r) {
            let k = choose|k: int| 0 <= k < rest.len() && (#[trigger] rest[k]).0 == n && rest[k].1@ == r;
            assert(rest[k].0 != notification && rest[k].1@ != request);
        }
        if linked(pairs, n, r) && r != request && n == notification {
            lemma_linked_once(pairs, notification, request, r);
        }
    }
}

/// Whether the list has this pair.
pub open spec fn has_pair(v: Seq<(u32, String)>, n: u32, r: Seq<char>) -> bool {
    exists|i: int| 0 <= i < v.len() && (#[trigger] v[i]).0 == n && v[i].1@ == r
}

/// Forgets the banners of requests that wait no more, and gives them, each with
/// its request, so that they can be closed.
pub fn reconcile(map: &mut NotificationMap, still_pending: &Vec<String>) -> (r: Vec<(u32, String)>)
    requires
        old(map).wf(),
    ensures
        final(map).wf(),
        forall|n: u32, id: Seq<char>| #[trigger]
            linked(final(map).links(), n, id) <==> linked(old(map).links(), n, id) && has_text(
                still_pending@,
                id,
            ),
        forall|n: u32, id: Seq<char>| #[trigger]
            has_pair(r@, n, id) <==> linked(old(map).links(), n, id) && !has_text(
                still_pending@,
                id,
            ),
        one_to_one(r@),
{
    let held = map.requests();
    let close = banners_to_close(&held, still_pending);
    let ghost start = map.links();
    let mut out: Vec<(u32, String)> = Vec::new();
    let mut i: usize = 0;
    assert(close@.take(0) =~= Seq::empty());
    while i < close.len()
        invariant
            i <= close.len(),
            map.wf(),
            one_to_one(start),
            forall|n: u32, id: Seq<char>| #[trigger]
                linked(map.links(), n, id) <==> linked(start, n, id) && !has_text(
                    close@.take(i as int),
                    id,
                ),
            forall|n: u32, id: Seq<char>| #[trigger]
                has_pair(out@, n, id) <==> linked(start, n, id) && has_text(close@.take(i as int), id),
            one_to_one(out@),
        decreases close.len() - i,
    {
        let ghost before = map.links();
        let ghost listed = out@;
        let ghost id = close@[i as int]@;
        proof {
            let now = close@.take(i + 1);
            let done = close@.take(i as int);
            assert forall|x: Seq<char>| #[trigger] has_text(now, x) <==> has_text(done, x) || x == id by {
                if has_text(done, x) {
                    let k = choose|k: int| 0 <= k < done.len() && (#[trigger] done[k])@ == x;
                    assert(now[k]@ == x);
                }
                if x == id {
                    assert(now[i as int]@ == x);
                }
                if has_text(now, x) && x != id {
                    let k = choose|k: int| 0 <= k < now.len() && (#[trigger] now[k])@ == x;
                    assert(done[k]@ == x);
                }
            }
        }
        if let Some(n) = map.forget_request(close[i].as_str()) {
            proof {
                lemma_apart_linked(before, n, id);
            }
            out.push((n, close[i].clone()));
            proof {
                assert forall|m: u32, x: Seq<char>| #[trigger] has_pair(out@, m, x) <==> has_pair(
                    listed,
                    m,
                    x,
                ) || (m == n && x == id) by {
                    if has_pair(listed, m, x) {
                        let k = choose|k: int|
                            0 <= k < listed.len() && (#[trigger] listed[k]).0 == m && listed[k].1@ == x;
                        assert(out@[k] == listed[k]);
                    }
                    if m == n && x == id {
                        assert(out@[listed.len() as int].0 == m);
                    }
                    if has_pair(out@, m, x) {
                        let k = choose|k: int|
                            0 <= k < out@.len() && (#[trigger] out@[k]).0 == m && out@[k].1@ == x;
                        if k < listed.len() {
                            assert(listed[k] == out@[k]);
                        }
                    }
                }
                assert(linked(before, n, id));
                assert forall|a: int, b: int| 0 <= a < b < out@.len() implies (#[trigger] out@[a]).0 != (
                #[trigger] out@[b]).0 && out@[a].1@ != out@[b].1@ by {
                    assert(out@[a] == listed[a]);
                    if b < listed.len() {
                        assert(out@[b] == listed[b]);
                    } else {
                        let x = listed[a].1@;
                        let m = listed[a].0;
                        assert(has_pair(listed, m, x));
                        assert(linked(start, m, x) && has_text(close@.take(i as int), x));
                        assert(linked(start, n, id) && !has_text(close@.take(i as int), id));
                        if m == n {
                            lemma_linked_once(start, n, id, x);
                        }
                    }
                }
                assert forall|m: u32| #[trigger] linked(start, m, id) && !has_text(
                    close@.take(i as int),
                    id,
                ) implies m == n by {
                    assert(linked(before, m, id));
                    assert(linked(before, n, id));
                    let a = choose|a: int|
                        0 <= a < before.len() && (#[trigger] before[a]).0 == m && before[a].1@ == id;
                    let b = choose|b: int|
                        0 <= b < before.len() && (#[trigger] before[b]).0 == n && before[b].1@ == id;
                    if a < b {
                        assert(before[a].1@ != before[b].1@);
                    } else if b < a {
                        assert(before[b].1@ != before[a].1@);
                    }
                }
            }
        }
        proof {
            let now = close@.take(i + 1);
            let done = close@.take(i as int);
            assert forall|m: u32, x: Seq<char>| #[trigger] has_pair(out@, m, x) <==> linked(start, m, x)
                && has_text(now, x) by {
                assert(has_text(now, x) <==> has_text(done, x) || x == id);
                assert(has_pair(listed, m, x) <==> linked(start, m, x) && has_text(done, x));
                assert(linked(before, m, x) <==> linked(start, m, x) && !has_text(done, x));
                if x == id && linked(start, m, x) && !has_text(done, x) {
                    assert(linked(before, m, id));
                }
            }
        }
        i += 1;
    }
    proof {
        assert(close@.take(i as int) =~= close@);
        assert forall|n: u32, id: Seq<char>| #[trigger] linked(start, n, id) implies has_text(held@, id) by {
            let k = choose|k: int|
                0 <= k < start.len() && (#[trigger] start[k]).0 == n && start[k].1@ == id;
            assert(held@[k] == start[k].1);
        }
        assert forall|n: u32, id: Seq<char>| #[trigger] linked(start, n, id) implies (has_text(
            close@,
            id,
        ) <==> !has_text(still_pending@, id)) by {
            law_stale_banners_are_closed(held@, still_pending@, id);
        }
        assert forall|n: u32, id: Seq<char>| #[trigger] linked(map.links(), n, id) <==> linked(
            start,
            n,
            id,
        ) && has_text(still_pending@, id) by {
            if linked(start, n, id) {
            }
        }
        assert forall|n: u32, id: Seq<char>| #[trigger] has_pair(out@, n, id) <==> linked(start, n, id)
            && !has_text(still_pending@, id) by {
            if linked(start, n, id) {
            }
        }
    }
    out
}

/// The most activation tokens that are kept.
pub const MAX_PARKED_TOKENS: usize = 32;

/// What came in over the bus.
#[derive(Debug, PartialEq, Eq)]
pub enum BusEvent {
    /// A button or the banner was clicked.
    ActionInvoked { notification: u32, key: String },
    /// The server took the banner away.
    NotificationClosed { notification: u32 },
    /// A token that lets the next click raise a window.
    ActivationToken { notification: u32, token: String },
    /// Another server, or none, has the name of the service.
    OwnerChanged,
}

/// What is to be done about it.
#[derive(Debug, PartialEq, Eq)]
pub enum BusAction {
    Nothing,
    /// Resolve the request.
    Resolve { request: String, decision: PendingDecision },
    /// Open the window, at the card and with the token where there is one.
    Show { card: Option<String>, token: Option<String> },
    /// Ask the server for its capabilities again; `dropped` banners were
    /// forgotten.
    RefreshCapabilities { dropped: usize },
}

/// The state of the notifier: the banners it holds and the tokens it was given.
#[derive(Debug)]
pub struct Desk {
    pub map: NotificationMap,
    pub tokens: Vec<(u32, String)>,
}

/// The tokens without those for this notification.
pub open spec fn tokens_without(tokens: Seq<(u32, String)>, notification: u32) -> Seq<(u32, String)>
    decreases tokens.len(),
{
    if tokens.len() == 0 {
        Seq::empty()
    } else {
        let rest = tokens_without(tokens.drop_last(), notification);
        if tokens.last().0 == notification {
            rest
        } else {
            rest.push(tokens.last())
        }
    }
}

/// The newest token for this notification.
pub open spec fn token_for(tokens: Seq<(u32, String)>, notification: u32) -> Option<Seq<char>>
    decreases tokens.len(),
{
    if tokens.len() == 0 {
        None
    } else if tokens.last().0 == notification {
        Some(tokens.last().1@)
    } else {
        token_for(tokens.drop_last(), notification)
    }
}

/// The tokens that are kept when another one comes: all of them, or none where
/// there are already as many as are kept.
pub open spec fn pruned(tokens: Seq<(u32, String)>) -> Seq<(u32, String)> {
    if tokens.len() >= MAX_PARKED_TOKENS {
        Seq::empty()
    } else {
        tokens
    }
}

/// Drops the tokens where there are as many as are kept. Those that a click was
/// to use are long used by then.
pub fn prune_tokens(tokens: &mut Vec<(u32, String)>)
    ensures
        final(tokens)@ == pruned(old(tokens)@),
{
    if tokens.len() >= MAX_PARKED_TOKENS {
        tokens.clear();
        assert(tokens@ =~= Seq::empty());
    }
}

/// Takes the tokens for this notification out, and gives the newest.
fn take_token(tokens: &mut Vec<(u32, String)>, notification: u32) -> (r: Option<String>)
    ensures
        final(tokens)@ == tokens_without(old(tokens)@, notification),
        (match r {
            Some(t) => Some(t@),
            None => None,
        }) == token_for(old(tokens)@, notification),
{
    let ghost before = tokens@;
    let mut out: Vec<(u32, String)> = Vec::new();
    let mut found: Option<String> = None;
    let mut i: usize = 0;
    assert(tokens@.take(0) =~= Seq::empty());
    while i < tokens.len()
        invariant
            i <= tokens.len(),
            tokens@ == before,
            out@ == tokens_without(before.take(i as int), notification),
            (match found {
                Some(t) => Some(t@),
                None => None,
            }) == token_for(before.take(i as int), notification),
        decreases tokens.len() - i,
    {
        proof {
            let now = before.take(i + 1);
            assert(now.drop_last() =~= before.take(i as int));
            assert(now.last() == before[i as int]);
        }
        if tokens[i].0 == notification {
            found = Some(tokens[i].1.clone());
        } else {
            out.push((tokens[i].0, tokens[i].1.clone()));
        }
        i += 1;
    }
    assert(before.take(i as int) =~= before);
    *tokens = out;
    found
}

/// `request` is the request that the notification stands for, if it stands for
/// one.
pub open spec fn stands_for(
    pairs: Seq<(u32, String)>,
    notification: u32,
    request: Option<Seq<char>>,
) -> bool {
    match request {
        Some(id) => linked(pairs, notification, id),
        None => forall|id: Seq<char>| !linked(pairs, notification, id),
    }
}

/// `action` is what is done about a click, given what the click does and the
/// token that was parked for it.
pub open spec fn acts_on_click(outcome: ClickOutcome, token: Option<Seq<char>>, action: BusAction) -> bool {
    match outcome {
        ClickOutcome::Nothing => action is Nothing,
        ClickOutcome::Resolve { request, decision } => action == (BusAction::Resolve {
            request,
            decision,
        }),
        ClickOutcome::Show { card } => action matches BusAction::Show { card: shown, token: given }
            && shown == card && (match given {
            Some(t) => Some(t@),
            None => None,
        }) == token,
    }
}

impl Desk {
    pub open spec fn wf(&self) -> bool {
        self.map.wf()
    }

    pub fn new() -> (r: Desk)
        ensures
            r.wf(),
            r.map.links().len() == 0,
            r.tokens@.len() == 0,
    {
        Desk { map: NotificationMap::new(), tokens: Vec::new() }
    }

    /// Takes an event from the bus, and says what is to be done about it.
    ///
    /// A click uses up the token that was parked for it. A banner that is closed
    /// is forgotten, and its request goes on waiting: dismissing a banner is no
    /// decision. When the server changes, every banner is forgotten.
    pub fn on_event(&mut self, event: BusEvent) -> (action: BusAction)
        requires
            old(self).wf(),
        ensures
            final(self).wf(),
            match event {
                BusEvent::ActionInvoked { notification, key } => {
                    &&& final(self).map == old(self).map
                    &&& final(self).tokens@ == tokens_without(old(self).tokens@, notification)
                    &&& exists|request: Option<Seq<char>>, outcome: ClickOutcome|
                        stands_for(old(self).map.links(), notification, request)
                            && #[trigger] clicked(key@, request, outcome) && acts_on_click(
                            outcome,
                            token_for(old(self).tokens@, notification),
                            action,
                        )
                },
                BusEvent::NotificationClosed { notification } => {
                    &&& action is Nothing
                    &&& final(self).tokens@ == tokens_without(old(self).tokens@, notification)
                    &&& forall|id: Seq<char>| !linked(final(self).map.links(), notification, id)
                    &&& forall|id: Seq<char>| #[trigger]
                        linked(old(self).map.links(), notification, id) ==> final(self).map.links()
                            == apart(old(self).map.links(), notification, id)
                    &&& stands_for(old(self).map.links(), notification, None) ==>
                        final(self).map.links() == old(self).map.links()
                },
                BusEvent::ActivationToken { notification, token } => {
                    &&& action is Nothing
                    &&& final(self).map == old(self).map
                    &&& final(self).tokens@ == tokens_without(
                        pruned(old(self).tokens@),
                        notification,
                    ).push((notification, token))
                },
                BusEvent::OwnerChanged => {
                    &&& action == (BusAction::RefreshCapabilities {
                        dropped: old(self).map.links().len() as usize,
                    })
                    &&& final(self).map.links().len() == 0
                    &&& final(self).tokens == old(self).tokens
                },
            },
    {
        match event {
            BusEvent::ActionInvoked { notification, key } => {
                let token = take_token(&mut self.tokens, notification);
                let request = self.map.request_for(notification);
                let ghost asked = named(request);
                let outcome = click_outcome(key.as_str(), request);
                let ghost shown = outcome;
                let action = match outcome {
                    ClickOutcome::Nothing => BusAction::Nothing,
                    ClickOutcome::Resolve { request, decision } => BusAction::Resolve {
                        request,
                        decision,
                    },
                    ClickOutcome::Show { card } => BusAction::Show { card, token },
                };
                proof {
                    assert(stands_for(old(self).map.links(), notification, asked));
                    assert(acts_on_click(
                        shown,
                        token_for(old(self).tokens@, notification),
                        action,
                    ));
                    assert(clicked(key@, asked, shown));
                    assert(self.map == old(self).map);
                }
                action
            },
            BusEvent::NotificationClosed { notification } => {
                let ghost before = self.map.links();
                let forgotten = self.map.forget_notification(notification);
                take_token(&mut self.tokens, notification);
                proof {
                    if let Some(id) = forgotten {
                        lemma_apart(before, notification, id@);
                        assert forall|other: Seq<char>| #[trigger]
                            linked(before, notification, other) implies other == id@ by {
                            lemma_linked_once(before, notification, id@, other);
                        }
                        assert forall|other: Seq<char>| !linked(self.map.links(), notification, other) by {
                            if linked(self.map.links(), notification, other) {
                                let k = choose|k: int|
                                    0 <= k < self.map.links().len() && (#[trigger] self.map.links()[k]).0
                                        == notification && self.map.links()[k].1@ == other;
                                assert(apart(before, notification, id@)[k].0 != notification);
                            }
                        }
                    }
                }
                BusAction::Nothing
            },
            BusEvent::ActivationToken { notification, token } => {
                prune_tokens(&mut self.tokens);
                take_token(&mut self.tokens, notification);
                self.tokens.push((notification, token));
                BusAction::Nothing
            },
            BusEvent::OwnerChanged => {
                let dropped = self.map.len();
                self.map.clear();
                BusAction::RefreshCapabilities { dropped }
            },
        }
    }
}

/// A click on a button decides the request that its banner stands for, as the
/// button says: approve allows, reject denies. A banner that stands for no
/// request decides nothing, and a click on the banner itself shows the card.
pub proof fn law_button_decides_as_it_says(key: Seq<char>, request: Option<Seq<char>>, r: ClickOutcome)
    requires
        clicked(key, request, r),
    ensures
        key == "approve"@ && request is Some ==> r is Resolve && r->request@ == request->0
            && r->decision.decision == WireDecision::Allow,
        key == "reject"@ && request is Some ==> r is Resolve && r->request@ == request->0
            && r->decision.decision == WireDecision::Deny,
        request is None ==> !(r is Resolve),
        r is Resolve && r->decision.decision != WireDecision::Deny ==> key == "approve"@,
        r is Show <==> key == "default"@,
        r matches ClickOutcome::Show { card } ==> (card is Some <==> request is Some),
        r matches ClickOutcome::Show { card: Some(card) } ==> request == Some(card@),
{
    reveal_strlit("approve");
    reveal_strlit("reject");
    reveal_strlit("default");
    assert("approve"@[0] == 'a' && "reject"@[0] == 'r' && "default"@[0] == 'd');
}

/// What is done on the bus after a click is what the click came to: a request is
/// resolved only by the decision of its button.
pub proof fn law_action_is_the_click(outcome: ClickOutcome, token: Option<Seq<char>>, action: BusAction)
    requires
        acts_on_click(outcome, token, action),
    ensures
        action is Resolve <==> outcome is Resolve,
        action is Show <==> outcome is Show,
        outcome is Resolve ==> action->Resolve_request@ == outcome->request@
            && action->Resolve_decision.decision == outcome->decision.decision,
        outcome is Show ==> action->Show_card == outcome->card,
        outcome is Show && token is Some ==> action->Show_token is Some && action->Show_token->0@
            == token->0,
        outcome is Show && token is None ==> action->Show_token is None,
{
}

/// A token is handed out for the notification it came for, once: after it was
/// taken there is none, a later one replaces it, and no other notification loses
/// its own.
pub proof fn law_token_is_used_once(
    tokens: Seq<(u32, String)>,
    notification: u32,
    token: String,
    other: u32,
)
    ensures
        token_for(tokens_without(tokens, notification), notification) is None,
        token_for(
            tokens_without(tokens, notification).push((notification, token)),
            notification,
        ) == Some(token@),
        other != notification ==> token_for(tokens_without(tokens, notification), other) == token_for(
            tokens,
            other,
        ),
        token_for(tokens, other) is Some <==> exists|i: int|
            0 <= i < tokens.len() && (#[trigger] tokens[i]).0 == other,
        tokens_without(tokens, notification).len() <= tokens.len(),
    decreases tokens.len(),
{
    let kept = tokens_without(tokens, notification);
    assert(kept.push((notification, token)).last().0 == notification);
    if tokens.len() > 0 {
        let before = tokens.drop_last();
        let rest = tokens_without(before, notification);
        law_token_is_used_once(before, notification, token, other);
        if tokens.last().0 != notification {
            assert(kept.drop_last() =~= rest);
        }
        if token_for(tokens, other) is Some {
            if tokens.last().0 == other {
                assert(tokens[tokens.len() - 1].0 == other);
            } else {
                let i = choose|i: int| 0 <= i < before.len() && (#[trigger] before[i]).0 == other;
                assert(tokens[i].0 == other);
            }
        } else if exists|i: int| 0 <= i < tokens.len() && (#[trigger] tokens[i]).0 == other {
            let i = choose|i: int| 0 <= i < tokens.len() && (#[trigger] tokens[i]).0 == other;
            if i < before.len() {
                assert(before[i].0 == other);
            }
        }
    }
}

/// The tokens that are parked never grow over their bound, and below it none is
/// lost.
pub proof fn law_parked_tokens_are_bounded(tokens: Seq<(u32, String)>, notification: u32, token: String)
    ensures
        tokens_without(pruned(tokens), notification).push((notification, token)).len()
            <= MAX_PARKED_TOKENS,
        tokens.len() < MAX_PARKED_TOKENS ==> pruned(tokens) == tokens,
{
    law_token_is_used_once(pruned(tokens), notification, token, notification);
}

/// What is taken out of the map of banners is the pair of this notification and
/// of this request, and every other pair stays, in its order.
pub proof fn law_only_one_pair_goes(pairs: Seq<(u32, String)>, notification: u32, request: Seq<char>)
    ensures
        apart(pairs, notification, request) == pairs.filter(
            |p: (u32, String)| p.0 != notification && p.1@ != request,
        ),
    decreases pairs.len(),
{
    reveal(Seq::filter);
    let such = |p: (u32, String)| p.0 != notification && p.1@ != request;
    if pairs.len() > 0 {
        law_only_one_pair_goes(pairs.drop_last(), notification, request);
    } else {
        assert(apart(pairs, notification, request) =~= pairs.filter(such));
    }
}

/// The banners that are closed are exactly those whose request waits no more,
/// each once and in their order.
pub proof fn law_each_stale_banner_once(held: Seq<String>, pending: Seq<String>)
    ensures
        stale(held, pending, held.len()) == held.filter(
            |h: String| forall|j: int| 0 <= j < pending.len() ==> (#[trigger] pending[j])@ != h@,
        ),
{
    lemma_stale_filter(held, pending, held.len());
    assert(held.take(held.len() as int) =~= held);
}

proof fn lemma_stale_filter(held: Seq<String>, pending: Seq<String>, n: nat)
    requires
        n <= held.len(),
    ensures
        stale(held, pending, n) == held.take(n as int).filter(
            |h: String| forall|j: int| 0 <= j < pending.len() ==> (#[trigger] pending[j])@ != h@,
        ),
    decreases n,
{
    reveal(Seq::filter);
    let such = |h: String|
        forall|j: int| 0 <= j < pending.len() ==> (#[trigger] pending[j])@ != h@;
    let part = held.take(n as int);
    if n > 0 {
        lemma_stale_filter(held, pending, (n - 1) as nat);
        assert(part.drop_last() =~= held.take(n - 1));
        assert(part.last() == held[n - 1]);
        assert(such(held[n - 1]) == !has_text(pending, held[n - 1]@));
    } else {
        assert(stale(held, pending, n) =~= part.filter(such));
    }
}

/// The title of a banner names the command, and says that it is a dry run exactly
/// where it is one.
pub proof fn law_banner_names_the_command(
    clean: spec_fn(Seq<char>) -> Seq<char>,
    command: Seq<char>,
    dry_run: bool,
)
    ensures
        banner_title(clean, command, dry_run).subrange(4, 4 + clean(command).len() as int) == clean(command),
        banner_title(clean, command, dry_run).len() == 4 + clean(command).len() + (if dry_run {
            10int
        } else {
            0int
        }),
        dry_run ==> " (dry run)"@.is_suffix_of(banner_title(clean, command, dry_run)),
{
    reveal_strlit("vet ");
    reveal_strlit(" (dry run)");
    let title = banner_title(clean, command, dry_run);
    let name = clean(command);
    assert(title.subrange(4, 4 + name.len() as int) =~= name);
    if dry_run {
        assert(" (dry run)"@ =~= title.subrange(title.len() - 10, title.len() as int));
    }
}

/// The buttons that a banner shows do what stands on them: the key in front of
/// `Approve` allows and the one in front of `Reject` denies.
pub proof fn law_labels_say_what_buttons_do(
    caps: Capabilities,
    k: int,
    request: Seq<char>,
    r: ClickOutcome,
)
    requires
        0 <= k < action_texts(caps).len() - 1,
        k % 2 == 0,
        clicked(action_texts(caps)[k], Some(request), r),
    ensures
        action_texts(caps)[k + 1] == "Approve"@ ==> r is Resolve && r->request@ == request
            && r->decision.decision == WireDecision::Allow,
        action_texts(caps)[k + 1] == "Reject"@ ==> r is Resolve && r->request@ == request
            && r->decision.decision == WireDecision::Deny,
        action_texts(caps)[k + 1] == "Open Vetter"@ ==> r is Show,
        caps.actions,
        action_texts(caps).len() == 6,
{
    reveal_strlit("approve");
    reveal_strlit("reject");
    reveal_strlit("default");
    reveal_strlit("Approve");
    reveal_strlit("Reject");
    reveal_strlit("Open Vetter");
    assert("approve"@[0] == 'a' && "reject"@[0] == 'r' && "default"@[0] == 'd');
    assert("Approve"@[0] == 'A' && "Reject"@[0] == 'R' && "Open Vetter"@[0] == 'O');
}

/// After a banner was linked to a request, a click on it is about that request,
/// and about no other; every other banner stands for what it stood for.
pub proof fn law_linked_banner_stands_for_its_request(
    map: &mut NotificationMap,
    notification: u32,
    request: &str,
    n: u32,
    id: Seq<char>,
)
    requires
        old(map).wf(),
        call_ensures(NotificationMap::link, (map, notification, request), ()),
    ensures
        final(map).wf(),
        linked(final(map).links(), notification, request@),
        linked(final(map).links(), notification, id) ==> id == request@,
        linked(final(map).links(), n, request@) ==> n == notification,
        n != notification && id != request@ ==> (linked(final(map).links(), n, id) <==> linked(
            old(map).links(),
            n,
            id,
        )),
{
    law_link_replaces_both_sides(
        old(map).links(),
        final(map).links(),
        notification,
        request@,
        n,
        id,
    );
}

/// On the bus, a button of a banner decides the request that the banner stands
/// for, and nothing else is ever resolved: not by a click on the banner, not by
/// its closing, not by anything that is told of the server.
pub proof fn law_bus_resolves_by_buttons_alone(desk: &mut Desk, event: BusEvent, action: BusAction)
    requires
        old(desk).wf(),
        call_ensures(Desk::on_event, (desk, event), action),
    ensures
        action is Resolve ==> event is ActionInvoked && linked(
            old(desk).map.links(),
            event->ActionInvoked_notification,
            action->Resolve_request@,
        ) && (event->key@ == "approve"@ || event->key@ == "reject"@),
        action is Resolve ==> (action->Resolve_decision.decision == WireDecision::Allow <==> event->key@
            == "approve"@) && (action->Resolve_decision.decision == WireDecision::Deny <==> event->key@
            == "reject"@),
        event is ActionInvoked && (event->key@ == "approve"@ || event->key@ == "reject"@) && (exists|
            id: Seq<char>,
        | #[trigger] linked(old(desk).map.links(), event->ActionInvoked_notification, id)) ==> action is Resolve,
        event is ActionInvoked && event->key@ == "default"@ ==> action is Show,
        event is ActivationToken || event is NotificationClosed ==> action is Nothing,
        event is ActionInvoked || event is ActivationToken ==> final(desk).map == old(desk).map,
        event is NotificationClosed ==> forall|id: Seq<char>|
            !linked(final(desk).map.links(), event->NotificationClosed_notification, id),
{
    reveal_strlit("approve");
    reveal_strlit("reject");
    reveal_strlit("default");
    assert("approve"@[0] == 'a' && "reject"@[0] == 'r' && "default"@[0] == 'd');
    if let BusEvent::ActionInvoked { notification, key } = event {
        let (request, outcome) = choose|request: Option<Seq<char>>, outcome: ClickOutcome|
            stands_for(old(desk).map.links(), notification, request) && #[trigger] clicked(
                key@,
                request,
                outcome,
            ) && acts_on_click(outcome, token_for(old(desk).tokens@, notification), action);
        law_button_decides_as_it_says(key@, request, outcome);
        law_action_is_the_click(outcome, token_for(old(desk).tokens@, notification), action);
    }
}

/// A token that came for a banner is handed out with the next click on that
/// banner, and only then.
pub proof fn law_token_goes_with_the_click(desk: &mut Desk, event: BusEvent, action: BusAction)
    requires
        old(desk).wf(),
        call_ensures(Desk::on_event, (desk, event), action),
    ensures
        event is ActionInvoked ==> token_for(
            final(desk).tokens@,
            event->ActionInvoked_notification,
        ) is None,
        event is ActivationToken ==> token_for(
            final(desk).tokens@,
            event->ActivationToken_notification,
        ) == Some(event->token@),
        event is ActivationToken ==> final(desk).tokens@.len() <= MAX_PARKED_TOKENS,
        event is ActionInvoked && action is Show ==> match token_for(
            old(desk).tokens@,
            event->ActionInvoked_notification,
        ) {
            Some(t) => action->Show_token is Some && action->Show_token->0@ == t,
            None => action->Show_token is None,
        },
{
    match event {
        BusEvent::ActionInvoked { notification, key } => {
            law_token_is_used_once(old(desk).tokens@, notification, key, notification);
        },
        BusEvent::ActivationToken { notification, token } => {
            law_token_is_used_once(pruned(old(desk).tokens@), notification, token, notification);
            law_parked_tokens_are_bounded(old(desk).tokens@, notification, token);
        },
        _ => {},
    }
}

/// The body of a banner is escaped where the server reads markup and plain where
/// it does not: either way a human sees the target at its end.
pub proof fn law_banner_body_reads_as_plain_text<S: Fn(&str) -> String>(
    summary: &PromptSummary,
    caps: Capabilities,
    sanitize: &S,
    clean: spec_fn(Seq<char>) -> Seq<char>,
    r: (String, String),
)
    requires
        call_ensures(banner_text::<S>, (summary, caps, sanitize), r),
        computes(*sanitize, clean),
    ensures
        ({
            let body = if caps.body_markup {
                read_markup(r.1@, 0)
            } else {
                r.1@
            };
            &&& clean(summary.primary_target@).is_suffix_of(body)
            &&& summary.primary_verb@.len() > 0 ==> clean(summary.primary_verb@).is_prefix_of(body)
        }),
        caps.body_markup ==> forall|i: int| 0 <= i < r.1@.len() ==> #[trigger] r.1@[i] != '<',
        r.0@.subrange(4, 4 + clean(summary.command@).len() as int) == clean(summary.command@),
        summary.force_prompt <==> r.0@.len() > 4 + clean(summary.command@).len(),
{
    let body = banner_body(clean, summary.primary_verb@, summary.primary_target@);
    law_banner_body_shows_the_target(clean, summary.primary_verb@, summary.primary_target@);
    law_escaped_text_reads_back(body);
    law_banner_names_the_command(clean, summary.command@, summary.force_prompt);
    if caps.body_markup {
        assert forall|i: int| 0 <= i < r.1@.len() implies #[trigger] r.1@[i] != '<' by {
            law_escaped_text_is_inert(body, i);
        }
    }
}

/// A banner stays until its request is decided: it never expires by itself, it is
/// urgent, and it makes a sound exactly where one is asked for.
pub proof fn law_banner_never_expires(play_sound: bool, r: BannerHints)
    requires
        call_ensures(banner_hints, (play_sound,), r),
    ensures
        r.expire_timeout == 0,
        r.urgency == 2,
        r.sound_name is Some <==> play_sound,
{
}

/// The server shows buttons exactly where its list says so, and reads markup
/// exactly where its list says that.
pub proof fn law_capabilities_are_those_listed(caps: &Vec<String>, r: Capabilities)
    requires
        call_ensures(Capabilities::from_list, (caps,), r),
    ensures
        r.actions <==> exists|i: int| 0 <= i < caps@.len() && (#[trigger] caps@[i])@ == "actions"@,
        r.body_markup <==> exists|i: int|
            0 <= i < caps@.len() && (#[trigger] caps@[i])@ == "body-markup"@,
{
}

} // verus!

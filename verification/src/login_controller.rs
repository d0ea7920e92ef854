//! The login controller: one login attempt answers the queued prompts in
//! order with the attempt's password. A prompt that comes back within the
//! attempt says that the password was wrong; the closing of the queue says
//! that the volumes are open and the attempt has succeeded.

use crate::control_server::GreeterController;
use crate::password_agent::{reply_to, PasswordRequest, ReplyCommand, ReplyView, RequestView};
use crate::power_actions::{PowerAction, PowerActionClient, StartUnit};
use crate::sddm_config::SddmConfig;
use crate::secret::Secret;
use crate::text::strip_prefix;
use std::collections::VecDeque;
use vstd::prelude::*;

verus! {

/// What the id of a prompt for an encrypted device begins with; the
/// device's path follows.
pub const MANAGED_PREFIX: &'static str = "cryptsetup:";

/// The credentials of a successful login, kept for the login manager that
/// takes over.
#[derive(Debug)]
pub struct LoginRequest {
    pub user: String,
    pub password: Secret,
    pub session: String,
}

/// Credentials, by their characters.
pub struct Credentials {
    pub user: Seq<char>,
    pub password: Seq<char>,
    pub session: Seq<char>,
}

impl DeepView for LoginRequest {
    type V = Credentials;

    open spec fn deep_view(&self) -> Credentials {
        Credentials { user: self.user@, password: self.password@, session: self.session@ }
    }
}

impl View for LoginRequest {
    type V = Credentials;

    open spec fn view(&self) -> Credentials {
        self.deep_view()
    }
}

/// The device path that a prompt's id names: what follows the prefix.
pub open spec fn device_path_of(id: Option<Seq<char>>) -> Option<Seq<char>> {
    match id {
        Some(text) => if MANAGED_PREFIX@.is_prefix_of(text) {
            Some(text.skip(MANAGED_PREFIX@.len() as int))
        } else {
            None
        },
        None => None,
    }
}

/// Whether a prompt may stand in the queue: it has an id that names a
/// device.
pub open spec fn is_managed(request: RequestView) -> bool {
    device_path_of(request.id) is Some
}

/// The message shown when the prompt with the given id came back.
pub open spec fn failure_message(id: Seq<char>) -> Seq<char> {
    "failed to unlock "@ + id
}

/// What one step of a login attempt asks of its caller.
pub enum StepView {
    /// Nothing is queued and the queue is open: come back when a prompt was
    /// delivered or the queue was closed.
    Wait,
    /// Answer this prompt, then step again.
    Answer(ReplyView),
    /// The attempt has failed; show the message.
    Failed(Seq<char>),
    /// The attempt has succeeded.
    Succeeded,
}

/// The login state as mathematics.
pub struct LoginModel {
    /// The prompts that wait to be answered, oldest first.
    pub queue: Seq<RequestView>,
    /// Whether the queue was closed: no more prompts will come.
    pub closed: bool,
    /// The prompt held over from a failed attempt.
    pub pending: Option<RequestView>,
    /// The ids answered in the current attempt, in the order of the answers.
    pub processed: Seq<Seq<char>>,
    /// The credentials captured by a successful attempt.
    pub result: Option<Credentials>,
}

impl LoginModel {
    /// The state of a new controller.
    pub open spec fn fresh() -> LoginModel {
        LoginModel {
            queue: Seq::empty(),
            closed: false,
            pending: None,
            processed: Seq::empty(),
            result: None,
        }
    }

    /// Every prompt held is managed, and no id was answered twice.
    pub open spec fn wf(self) -> bool {
        &&& forall|i: int| 0 <= i < self.queue.len() ==> is_managed(#[trigger] self.queue[i])
        &&& self.pending matches Some(request) ==> is_managed(request)
        &&& self.processed.no_duplicates()
    }

    /// The prompts that an attempt will observe, in the order in which it
    /// will observe them: the one held over, then the queue.
    pub open spec fn observed(self) -> Seq<RequestView> {
        match self.pending {
            Some(request) => seq![request] + self.queue,
            None => self.queue,
        }
    }

    /// The state after the next prompt was taken.
    pub open spec fn after_take(self) -> LoginModel {
        match self.pending {
            Some(_) => LoginModel { pending: None, ..self },
            None => LoginModel { queue: self.queue.drop_first(), ..self },
        }
    }

    /// The state after a prompt was delivered. A closed queue takes none.
    pub open spec fn deliver(self, request: RequestView) -> LoginModel {
        if self.closed {
            self
        } else {
            LoginModel { queue: self.queue.push(request), ..self }
        }
    }

    /// The state after the queue was closed.
    pub open spec fn close(self) -> LoginModel {
        LoginModel { closed: true, ..self }
    }

    /// The state after shutdown, and the credentials handed out: the queue
    /// is closed and the result is taken.
    pub open spec fn shutdown(self) -> (LoginModel, Option<Credentials>) {
        (LoginModel { closed: true, result: None, ..self }, self.result)
    }

    /// One step of a login attempt with the given credentials: the state
    /// after it and what it asks of the caller.
    pub open spec fn step(self, creds: Credentials) -> (LoginModel, StepView) {
        if self.observed().len() == 0 {
            if self.closed {
                (
                    LoginModel { result: Some(creds), processed: Seq::empty(), ..self },
                    StepView::Succeeded,
                )
            } else {
                (self, StepView::Wait)
            }
        } else {
            let request = self.observed()[0];
            let id = request.id->0;
            if self.processed.contains(id) {
                (
                    LoginModel {
                        pending: Some(request),
                        processed: Seq::empty(),
                        ..self.after_take()
                    },
                    StepView::Failed(failure_message(id)),
                )
            } else {
                (
                    LoginModel { processed: self.processed.push(id), ..self.after_take() },
                    StepView::Answer(reply_to(request, Some(creds.password))),
                )
            }
        }
    }

    /// A login attempt as far as it gets without waiting: the state after
    /// it, the answers it gave in their order, and how it ended (never with
    /// `Answer`).
    pub open spec fn run(self, creds: Credentials) -> (LoginModel, Seq<ReplyView>, StepView)
        decreases self.observed().len(),
    {
        let (next, step) = self.step(creds);
        match step {
            StepView::Answer(reply) => {
                let (last, replies, end) = next.run(creds);
                (last, seq![reply] + replies, end)
            },
            _ => (next, Seq::empty(), step),
        }
    }

    /// Whether the prompt at position `k` of those observed is one whose id
    /// the attempt has seen before: answered earlier in the attempt, or
    /// carried by a prompt observed before it.
    pub open spec fn repeats_at(self, k: int) -> bool {
        let observed = self.observed();
        &&& 0 <= k < observed.len()
        &&& (self.processed.contains(observed[k].id->0) || exists|j: int|
            same_id_before(observed, j, k))
    }
}

/// Whether the prompt at position `j` stands before the one at `k` and
/// carries the same id.
pub open spec fn same_id_before(observed: Seq<RequestView>, j: int, k: int) -> bool {
    0 <= j < k && k < observed.len() && observed[j].id == observed[k].id
}

/// Taking the next prompt shortens what is observed by one.
pub proof fn lemma_after_take(m: LoginModel)
    requires
        m.observed().len() > 0,
    ensures
        m.after_take().observed() == m.observed().drop_first(),
        m.wf() ==> m.after_take().wf() && is_managed(m.observed()[0]),
{
    match m.pending {
        Some(request) => {
            assert(m.after_take().observed() =~= m.observed().drop_first());
        },
        None => {
            assert(m.after_take().observed() =~= m.observed().drop_first());
            if m.wf() {
                assert forall|i: int| 0 <= i < m.queue.drop_first().len() implies is_managed(
                    #[trigger] m.queue.drop_first()[i],
                ) by {
                    assert(m.queue.drop_first()[i] == m.queue[i + 1]);
                }
            }
        },
    }
}

/// A step keeps the state well formed.
pub proof fn lemma_step_wf(m: LoginModel, creds: Credentials)
    requires
        m.wf(),
    ensures
        m.step(creds).0.wf(),
{
    if m.observed().len() > 0 {
        lemma_after_take(m);
        let id = m.observed()[0].id->0;
        if !m.processed.contains(id) {
            let after = m.processed.push(id);
            assert forall|i: int, j: int|
                0 <= i < after.len() && 0 <= j < after.len() && i != j implies after[i]
                != after[j] by {
                if i < m.processed.len() && j < m.processed.len() {
                } else if i < m.processed.len() {
                    assert(m.processed.contains(m.processed[i]));
                } else {
                    assert(m.processed.contains(m.processed[j]));
                }
            }
        }
    }
}

/// What a login attempt does, said without recursion.
///
/// The attempt answers the observed prompts in their order up to the first
/// one that repeats an id. Where there is such a prompt, the attempt fails,
/// that prompt is held over and the prompts behind it stay queued. Where
/// there is none, every observed prompt is answered; the attempt then
/// succeeds if the queue is closed and waits if it is open.
pub proof fn lemma_run(m: LoginModel, creds: Credentials)
    requires
        m.wf(),
    ensures
        ({
            let (last, replies, end) = m.run(creds);
            let observed = m.observed();
            let k = replies.len() as int;
            &&& last.wf()
            &&& k <= observed.len()
            &&& forall|i: int|
                0 <= i < k ==> #[trigger] replies[i] == reply_to(
                    observed[i],
                    Some(creds.password),
                ) && !m.repeats_at(i)
            &&& k < observed.len() ==> {
                &&& m.repeats_at(k)
                &&& end == StepView::Failed(failure_message(observed[k].id->0))
                &&& last.pending == Some(observed[k])
                &&& last.queue == observed.skip(k + 1)
                &&& last.processed.len() == 0
                &&& last.closed == m.closed
                &&& last.result == m.result
            }
            &&& k == observed.len() ==> {
                &&& last.pending is None
                &&& last.queue.len() == 0
                &&& last.closed == m.closed
                &&& m.closed ==> end == StepView::Succeeded && last.result == Some(creds)
                    && last.processed.len() == 0
                &&& !m.closed ==> end == StepView::Wait && last.result == m.result
                    && last.processed == m.processed + Seq::new(
                    observed.len(),
                    |i: int| observed[i].id->0,
                )
            }
        }),
    decreases m.observed().len(),
{
    let (next, step) = m.step(creds);
    let observed = m.observed();
    lemma_step_wf(m, creds);
    if observed.len() == 0 {
        assert(m.processed + Seq::new(0, |i: int| observed[i].id->0) =~= m.processed);
        assert(m.queue.len() == 0);
    } else {
        lemma_after_take(m);
        let id = observed[0].id->0;
        if m.processed.contains(id) {
            assert(m.after_take().queue =~= observed.skip(1)) by {
                match m.pending {
                    Some(_) => {},
                    None => {},
                }
            }
        } else {
            assert(next.observed() == observed.drop_first()) by {
                assert(next.pending == m.after_take().pending);
                assert(next.queue == m.after_take().queue);
            }
            lemma_run(next, creds);
            let (last, tail, end) = next.run(creds);
            let replies = seq![reply_to(observed[0], Some(creds.password))] + tail;
            assert(m.run(creds) == (last, replies, end));
            let k = replies.len() as int;
            let rest = observed.drop_first();
            if k <= observed.len() {
                if k - 1 < rest.len() {
                    lemma_repeats_shift(m, creds, k);
                    assert(rest[k - 1] == observed[k]);
                    assert(rest.skip(k) =~= observed.skip(k + 1));
                }
            }
            assert forall|i: int| 0 <= i < k implies #[trigger] replies[i] == reply_to(
                observed[i],
                Some(creds.password),
            ) && !m.repeats_at(i) by {
                if i > 0 {
                    assert(replies[i] == tail[i - 1]);
                    assert(rest[i - 1] == observed[i]);
                    lemma_repeats_shift(m, creds, i);
                }
            }
            if k == observed.len() && !m.closed {
                let ids = Seq::new(observed.len(), |i: int| observed[i].id->0);
                let rest_ids = Seq::new(rest.len(), |i: int| rest[i].id->0);
                assert(next.processed + rest_ids =~= m.processed + ids);
            }
        }
    }
}

/// Whether a prompt repeats an id is the same seen from the state after the
/// first prompt was answered.
pub proof fn lemma_repeats_shift(m: LoginModel, creds: Credentials, i: int)
    requires
        m.wf(),
        m.observed().len() > 0,
        !m.processed.contains(m.observed()[0].id->0),
        0 < i < m.observed().len(),
    ensures
        m.step(creds).0.repeats_at(i - 1) <==> m.repeats_at(i),
{
    let next = m.step(creds).0;
    let observed = m.observed();
    let rest = next.observed();
    lemma_after_take(m);
    assert(rest == observed.drop_first()) by {
        assert(next.pending == m.after_take().pending);
        assert(next.queue == m.after_take().queue);
    }
    assert(rest[i - 1] == observed[i]);
    let id = observed[i].id->0;
    let first = observed[0].id->0;
    lemma_managed_has_id(m, 0);
    lemma_managed_has_id(m, i);
    if m.repeats_at(i) {
        if m.processed.contains(id) {
            let w = choose|w: int| 0 <= w < m.processed.len() && m.processed[w] == id;
            assert(next.processed[w] == id);
        } else {
            let j = choose|j: int| same_id_before(observed, j, i);
            if j == 0 {
                assert(next.processed[m.processed.len() as int] == id);
            } else {
                assert(same_id_before(rest, j - 1, i - 1));
            }
        }
    }
    if next.repeats_at(i - 1) {
        if next.processed.contains(id) {
            let w = choose|w: int| 0 <= w < next.processed.len() && next.processed[w] == id;
            if w < m.processed.len() {
                assert(m.processed[w] == id);
            } else {
                assert(same_id_before(observed, 0, i));
            }
        } else {
            let before = i - 1;
            let j = choose|j: int| same_id_before(rest, j, before);
            assert(same_id_before(observed, j + 1, i));
        }
    }
}

/// Every observed prompt of a well-formed state carries an id.
pub proof fn lemma_managed_has_id(m: LoginModel, i: int)
    requires
        m.wf(),
        0 <= i < m.observed().len(),
    ensures
        m.observed()[i].id is Some,
        is_managed(m.observed()[i]),
{
    match m.pending {
        Some(request) => {
            if i > 0 {
                assert(m.observed()[i] == m.queue[i - 1]);
            }
        },
        None => {},
    }
}

/// Prompts delivered before the first login are answered in the order of
/// their delivery: the answers are the replies to the first prompt, the
/// second, and so on, and they stop only in front of a prompt that repeats
/// an id.
pub proof fn lemma_answers_in_delivery_order(
    prompts: Seq<RequestView>,
    closed: bool,
    creds: Credentials,
)
    requires
        forall|i: int| 0 <= i < prompts.len() ==> is_managed(#[trigger] prompts[i]),
    ensures
        ({
            let start = LoginModel { queue: prompts, closed, ..LoginModel::fresh() };
            let (last, replies, end) = start.run(creds);
            &&& replies.len() <= prompts.len()
            &&& forall|i: int|
                0 <= i < replies.len() ==> #[trigger] replies[i] == reply_to(
                    prompts[i],
                    Some(creds.password),
                )
            &&& replies.len() < prompts.len() ==> exists|j: int|
                same_id_before(prompts, j, replies.len() as int)
            &&& (forall|j: int, k: int| !same_id_before(prompts, j, k)) ==> replies.len()
                == prompts.len()
        }),
{
    let start = LoginModel { queue: prompts, closed, ..LoginModel::fresh() };
    lemma_run(start, creds);
    let replies = start.run(creds).1;
    let k = replies.len() as int;
    if k < prompts.len() {
        assert(start.repeats_at(k));
    }
}

/// An attempt fails exactly if it observes an id for the second time. The
/// prompt that brought the id back is then held over, and the next attempt,
/// whatever its credentials, answers that prompt first.
pub proof fn lemma_repeat_fails_and_is_retried_first(
    m: LoginModel,
    creds: Credentials,
    retry: Credentials,
)
    requires
        m.wf(),
    ensures
        ({
            let (last, replies, end) = m.run(creds);
            &&& end is Failed <==> exists|k: int| m.repeats_at(k)
            &&& end is Failed ==> {
                &&& m.repeats_at(replies.len() as int)
                &&& last.pending == Some(m.observed()[replies.len() as int])
                &&& last.step(retry).1 == StepView::Answer(
                    reply_to(m.observed()[replies.len() as int], Some(retry.password)),
                )
                &&& last.run(retry).1.len() > 0
                &&& last.run(retry).1[0] == reply_to(
                    m.observed()[replies.len() as int],
                    Some(retry.password),
                )
            }
        }),
{
    lemma_run(m, creds);
    let (last, replies, end) = m.run(creds);
    let k = replies.len() as int;
    if exists|w: int| m.repeats_at(w) {
        let w = choose|w: int| m.repeats_at(w);
        if k == m.observed().len() {
            assert(replies[w] == reply_to(m.observed()[w], Some(creds.password)));
            assert(!m.repeats_at(w));
        }
    }
    if k < m.observed().len() {
        assert(last.observed()[0] == m.observed()[k]);
        assert(!last.processed.contains(m.observed()[k].id->0));
    }
}

/// Closing the queue under an attempt that waits completes it: its next
/// step succeeds and captures the attempt's credentials, which shutdown
/// hands out once and not again.
pub proof fn lemma_close_completes_waiting_login(m: LoginModel, creds: Credentials)
    requires
        m.wf(),
        m.step(creds).1 is Wait,
    ensures
        ({
            let (done, step) = m.close().step(creds);
            &&& step is Succeeded
            &&& done.result == Some(creds)
            &&& done.shutdown().1 == Some(creds)
            &&& done.shutdown().0.shutdown().1 is None
        }),
{
}

/// When an attempt has ended, in success or in failure, no id is left
/// among the processed ones.
pub proof fn lemma_no_processed_ids_after_attempt(m: LoginModel, creds: Credentials)
    requires
        m.wf(),
    ensures
        m.step(creds).1 is Succeeded || m.step(creds).1 is Failed ==> m.step(
            creds,
        ).0.processed.len() == 0,
        m.run(creds).2 is Succeeded || m.run(creds).2 is Failed ==> m.run(creds).0.processed.len()
            == 0,
        !(m.run(creds).2 is Answer),
{
    lemma_run(m, creds);
}

/// What one step of a login attempt asks of its caller.
#[derive(Debug)]
pub enum LoginStep {
    /// Nothing is queued and the queue is open: step again when a prompt
    /// was delivered or the queue was closed.
    Wait,
    /// Run the reply helper as the command says, then step again. A failure
    /// of the helper does not end the attempt.
    Answer(ReplyCommand),
    /// The attempt has failed; show the message to the user.
    Failed(String),
    /// The attempt has succeeded and its credentials are kept.
    Succeeded,
}

impl View for LoginStep {
    type V = StepView;

    open spec fn view(&self) -> StepView {
        match self {
            LoginStep::Wait => StepView::Wait,
            LoginStep::Answer(command) => StepView::Answer(command@),
            LoginStep::Failed(message) => StepView::Failed(message@),
            LoginStep::Succeeded => StepView::Succeeded,
        }
    }
}

/// A login attempt as far as it got without waiting.
#[derive(Debug)]
pub struct LoginAttempt {
    /// The answers to give, in this order.
    pub replies: Vec<ReplyCommand>,
    /// How the attempt ended; never `Answer`.
    pub end: LoginStep,
}

/// What became of a prompt that was handed to the controller.
#[derive(Debug, Clone, Copy, PartialEq, Eq, Structural)]
pub enum Disposition {
    /// The prompt was queued.
    Queued,
    /// The prompt's id does not name an encrypted device.
    NotCryptsetup,
    /// The prompt's device is none of the configured ones.
    NotConfigured,
    /// The queue is closed and takes no more prompts.
    Closed,
}

/// A prompt together with the canonical path of the device that its id
/// names, where that path could be found.
#[derive(Debug)]
pub struct ResolvedRequest {
    pub request: PasswordRequest,
    pub device: Option<String>,
}

/// What becomes of a prompt, given the canonical path of its device and the
/// canonical paths of the configured devices.
pub open spec fn disposition_of(
    closed: bool,
    request: RequestView,
    device: Option<Seq<char>>,
    configured: Seq<Seq<char>>,
) -> Disposition {
    if !is_managed(request) {
        Disposition::NotCryptsetup
    } else if device is None || !configured.contains(device->0) {
        Disposition::NotConfigured
    } else if closed {
        Disposition::Closed
    } else {
        Disposition::Queued
    }
}

/// The state after a run of prompts was handed over one by one.
pub open spec fn after_requests(
    m: LoginModel,
    requests: Seq<(RequestView, Option<Seq<char>>)>,
    configured: Seq<Seq<char>>,
) -> LoginModel
    decreases requests.len(),
{
    if requests.len() == 0 {
        m
    } else {
        let before = after_requests(m, requests.drop_last(), configured);
        let (request, device) = requests.last();
        if disposition_of(before.closed, request, device, configured) == Disposition::Queued {
            before.deliver(request)
        } else {
            before
        }
    }
}

/// Whether `text` is one of the texts in `list`.
fn contains_text(list: &Vec<String>, text: &String) -> (found: bool)
    ensures
        found == list.deep_view().contains(text@),
{
    let mut i: usize = 0;
    while i < list.len()
        invariant
            i <= list.len(),
            forall|j: int| 0 <= j < i ==> list.deep_view()[j] != text@,
        decreases list.len() - i,
    {
        if list[i] == *text {
            proof {
                assert(list.deep_view()[i as int] == text@);
            }
            return true;
        }
        i = i + 1;
    }
    false
}

/// The login state: the prompt queue, the prompt held over from a failed
/// attempt, the ids answered in the current attempt and the credentials of
/// a successful one.
#[derive(Debug)]
struct LoginState {
    queue: VecDeque<PasswordRequest>,
    closed: bool,
    pending_request: Option<PasswordRequest>,
    processed_ids: Vec<String>,
    login_request: Option<LoginRequest>,
}

/// Coordinates the prompts of the init system with the logins of the
/// greeter.
#[derive(Debug)]
pub struct LoginController {
    pub sddm_config: SddmConfig,
    power_client: Option<PowerActionClient>,
    state: LoginState,
}

impl View for LoginController {
    type V = LoginModel;

    closed spec fn view(&self) -> LoginModel {
        LoginModel {
            queue: self.state.queue.deep_view(),
            closed: self.state.closed,
            pending: self.state.pending_request.deep_view(),
            processed: self.state.processed_ids.deep_view(),
            result: self.state.login_request.deep_view(),
        }
    }
}

impl PasswordRequest {
    /// The path of the encrypted device that the prompt is for, as its id
    /// names it; `None` where the id names no device.
    pub fn device_path(&self) -> (path: Option<&str>)
        ensures
            path.deep_view() == device_path_of(self@.id),
    {
        match &self.id {
            Some(id) => {
                let rest = strip_prefix(id.as_str(), MANAGED_PREFIX);
                proof {
                    if let Some(r) = rest {
                        assert(r@ =~= id@.skip(MANAGED_PREFIX@.len() as int));
                    }
                }
                rest
            },
            None => None,
        }
    }
}

impl LoginController {
    /// The configuration that the controller was made with.
    pub closed spec fn config(&self) -> SddmConfig {
        self.sddm_config
    }

    /// The power client that the controller was made with.
    pub closed spec fn power(&self) -> Option<PowerActionClient> {
        self.power_client
    }

    /// A controller with an empty, open queue.
    pub fn new(sddm_config: SddmConfig, power_client: Option<PowerActionClient>) -> (controller:
        Self)
        ensures
            controller@ == LoginModel::fresh(),
            controller@.wf(),
            controller.config() == sddm_config,
            controller.power() == power_client,
    {
        let controller = LoginController {
            sddm_config,
            power_client,
            state: LoginState {
                queue: VecDeque::new(),
                closed: false,
                pending_request: None,
                processed_ids: Vec::new(),
                login_request: None,
            },
        };
        proof {
            assert(controller.state.queue.deep_view() =~= Seq::<RequestView>::empty());
            assert(controller.state.processed_ids.deep_view() =~= Seq::<Seq<char>>::empty());
        }
        controller
    }

    /// Takes a prompt that the watcher found. It is queued if its id names
    /// an encrypted device, `device` is that device's canonical path and
    /// one of `configured`, the canonical paths of the configured devices,
    /// and the queue is open; else it is dropped.
    pub fn process_request(
        &mut self,
        request: PasswordRequest,
        device: Option<String>,
        configured: &Vec<String>,
    ) -> (disposition: Disposition)
        requires
            old(self)@.wf(),
        ensures
            final(self)@.wf(),
            disposition == disposition_of(
                old(self)@.closed,
                request@,
                device.deep_view(),
                configured.deep_view(),
            ),
            final(self)@ == (if disposition == Disposition::Queued {
                old(self)@.deliver(request@)
            } else {
                old(self)@
            }),
            final(self).config() == old(self).config(),
            final(self).power() == old(self).power(),
    {
        if request.device_path().is_none() {
            return Disposition::NotCryptsetup;
        }
        let known = match &device {
            Some(path) => contains_text(configured, path),
            None => false,
        };
        if !known {
            return Disposition::NotConfigured;
        }
        if self.state.closed {
            return Disposition::Closed;
        }
        let ghost before = self.state.queue.deep_view();
        self.state.queue.push_back(request);
        proof {
            assert(self.state.queue.deep_view() =~= before.push(request@));
        }
        Disposition::Queued
    }

    /// Takes the prompts that the watcher found, in their order.
    pub fn process_pw_requests(&mut self, requests: Vec<ResolvedRequest>, configured: &Vec<String>)
        requires
            old(self)@.wf(),
        ensures
            final(self)@.wf(),
            final(self)@ == after_requests(
                old(self)@,
                Seq::new(
                    requests@.len(),
                    |i: int| (requests@[i].request@, requests@[i].device.deep_view()),
                ),
                configured.deep_view(),
            ),
            final(self).config() == old(self).config(),
            final(self).power() == old(self).power(),
    {
        let ghost all = Seq::new(
            requests@.len(),
            |i: int| (requests@[i].request@, requests@[i].device.deep_view()),
        );
        let ghost start = self@;
        proof {
            assert(all.take(0) =~= Seq::<(RequestView, Option<Seq<char>>)>::empty());
        }
        for item in it: requests
            invariant
                self@.wf(),
                it.seq().len() == all.len(),
                forall|j: int|
                    0 <= j < all.len() ==> (it.seq()[j].request@, it.seq()[j].device.deep_view())
                        == #[trigger] all[j],
                self@ == after_requests(start, all.take(it.index()), configured.deep_view()),
                self.config() == old(self).config(),
                self.power() == old(self).power(),
        {
            proof {
                let done = it.index();
                let upto = all.take(done + 1);
                assert(upto.drop_last() =~= all.take(done));
                assert(upto.last() == all[done]);
            }
            self.process_request(item.request, item.device, configured);
        }
        proof {
            assert(all.take(all.len() as int) =~= all);
        }
    }

    /// Closes the queue: no more prompts will come. An attempt that waits
    /// succeeds at its next step.
    pub fn close(&mut self)
        ensures
            final(self)@ == old(self)@.close(),
            old(self)@.wf() ==> final(self)@.wf(),
            final(self).config() == old(self).config(),
            final(self).power() == old(self).power(),
    {
        self.state.closed = true;
    }

    /// Closes the queue and hands out the credentials of a successful
    /// login, if there was one. They are handed out once.
    pub fn shutdown(&mut self) -> (result: Option<LoginRequest>)
        ensures
            (final(self)@, result.deep_view()) == old(self)@.shutdown(),
            old(self)@.wf() ==> final(self)@.wf(),
            final(self).config() == old(self).config(),
            final(self).power() == old(self).power(),
    {
        self.state.closed = true;
        self.state.login_request.take()
    }

    /// One step of a login attempt: takes the prompt held over or else the
    /// oldest queued one and says what to do about it.
    pub fn login_step(&mut self, user: &str, password: &Secret, session: &str) -> (step: LoginStep)
        requires
            old(self)@.wf(),
        ensures
            final(self)@.wf(),
            (final(self)@, step@) == old(self)@.step(
                Credentials { user: user@, password: password@, session: session@ },
            ),
            final(self).config() == old(self).config(),
            final(self).power() == old(self).power(),
    {
        let ghost creds = Credentials { user: user@, password: password@, session: session@ };
        let ghost before = self@;
        proof {
            lemma_step_wf(before, creds);
        }
        let held = self.state.pending_request.take();
        let taken = match held {
            Some(request) => Some(request),
            None => {
                let ghost queued = self.state.queue.deep_view();
                let front = self.state.queue.pop_front();
                proof {
                    if front is Some {
                        assert(self.state.queue.deep_view() =~= queued.drop_first());
                        assert(front->0@ == queued[0]);
                    } else {
                        assert(queued.len() == 0);
                    }
                }
                front
            },
        };
        match taken {
            None => {
                if self.state.closed {
                    self.state.login_request = Some(
                        LoginRequest {
                            user: String::from_str(user),
                            password: password.clone(),
                            session: String::from_str(session),
                        },
                    );
                    self.state.processed_ids.clear();
                    proof {
                        assert(self.state.processed_ids.deep_view() =~= Seq::<Seq<char>>::empty());
                        assert(self@.queue =~= before.queue);
                    }
                    LoginStep::Succeeded
                } else {
                    proof {
                        assert(self@.queue =~= before.queue);
                    }
                    LoginStep::Wait
                }
            },
            Some(request) => {
                proof {
                    lemma_after_take(before);
                    lemma_managed_has_id(before, 0);
                    assert(request@ == before.observed()[0]);
                    assert(self@.queue =~= before.after_take().queue);
                }
                let id = match &request.id {
                    Some(id) => id.clone(),
                    None => String::new(),
                };
                if contains_text(&self.state.processed_ids, &id) {
                    let mut message = String::from_str("failed to unlock ");
                    message.append(id.as_str());
                    self.state.processed_ids.clear();
                    self.state.pending_request = Some(request);
                    proof {
                        assert(self.state.processed_ids.deep_view() =~= Seq::<Seq<char>>::empty());
                    }
                    LoginStep::Failed(message)
                } else {
                    let ghost ids = self.state.processed_ids.deep_view();
                    self.state.processed_ids.push(id);
                    proof {
                        assert(self.state.processed_ids.deep_view() =~= ids.push(id@));
                    }
                    LoginStep::Answer(request.reply(Some(password.clone())))
                }
            },
        }
    }

    /// A login attempt as far as it gets without waiting: the prompt held
    /// over and the queued ones are answered in order with the password.
    /// The attempt fails at a prompt whose id it has answered before and
    /// holds that prompt over; it succeeds and keeps the credentials when
    /// nothing is left and the queue is closed; it waits when nothing is
    /// left and the queue is open, and goes on at the next call.
    pub fn login(&mut self, user: &str, password: &Secret, session: &str) -> (attempt: LoginAttempt)
        requires
            old(self)@.wf(),
        ensures
            final(self)@.wf(),
            (final(self)@, attempt.replies.deep_view(), attempt.end@) == old(self)@.run(
                Credentials { user: user@, password: password@, session: session@ },
            ),
            final(self).config() == old(self).config(),
            final(self).power() == old(self).power(),
    {
        let ghost creds = Credentials { user: user@, password: password@, session: session@ };
        let ghost start = self@;
        let mut replies: Vec<ReplyCommand> = Vec::new();
        proof {
            assert(replies.deep_view() + start.run(creds).1 =~= start.run(creds).1);
        }
        loop
            invariant
                self@.wf(),
                start == old(self)@,
                creds == (Credentials { user: user@, password: password@, session: session@ }),
                start.run(creds) == (
                    self@.run(creds).0,
                    replies.deep_view() + self@.run(creds).1,
                    self@.run(creds).2,
                ),
                self.config() == old(self).config(),
                self.power() == old(self).power(),
            decreases self@.observed().len(),
        {
            let ghost before = self@;
            let ghost given = replies.deep_view();
            proof {
                if before.observed().len() > 0 {
                    lemma_after_take(before);
                }
            }
            let step = self.login_step(user, password, session);
            match step {
                LoginStep::Answer(command) => {
                    replies.push(command);
                    proof {
                        let tail = self@.run(creds).1;
                        assert(replies.deep_view() =~= given.push(command@));
                        assert(given + (seq![command@] + tail) =~= replies.deep_view() + tail);
                    }
                },
                end => {
                    proof {
                        assert(!(end@ is Answer));
                        assert(before.run(creds) == (self@, Seq::<ReplyView>::empty(), end@));
                        assert(given + Seq::<ReplyView>::empty() =~= given);
                    }
                    return LoginAttempt { replies, end };
                },
            }
        }
    }
}

impl GreeterController for LoginController {
    closed spec fn power_capable(&self, act: PowerAction) -> bool {
        match self.power_client {
            Some(client) => client.capable(act),
            None => false,
        }
    }

    /// Whether the action can be carried out: never without a power
    /// client, else as the client found it.
    fn can_perform_power_action(&self, act: PowerAction) -> (able: bool)
        ensures
            able == (match self.power() {
                Some(client) => client.capable(act),
                None => false,
            }),
    {
        match &self.power_client {
            Some(client) => client.can_perform_action(act),
            None => false,
        }
    }

    /// The request that carries the action out; `None` exactly where the
    /// controller has no power client.
    fn perform_power_action(&self, act: PowerAction) -> (request: Option<StartUnit>)
        ensures
            request is Some <==> self.power() is Some,
    {
        match &self.power_client {
            Some(client) => Some(client.perform_action(act)),
            None => None,
        }
    }
}

} // verus!

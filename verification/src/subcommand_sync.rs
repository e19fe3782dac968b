//! Reconciling one host: the steps that lead from a host with pending
//! changes to a written `authorized_keys` file, or to the point where the run
//! is given up.
//!
//! The program performs each action (connect, ask, fetch, write) and reports
//! what came of it as an event; `step` decides what follows.

use vstd::prelude::*;
use vstd::string::*;
use vstd::utf8::*;
use crate::cli_flow::{
    answer_or, answer_or_default, default_key_file, default_private_key_file, yes_no,
    yes_no_answer,
};
use crate::compiler::{compile, desired_text};
use crate::database::{option_view, Database, DatabaseView, Host, HostView};
use crate::diff::{
    accounts_for, changeset_diffs, comparable, diff_lines, line_feed, segment_views, unchanged,
    DiffSegment, DiffSegmentView,
};
use crate::resolver::{resolve, resolved};
use crate::ssh_config::{SSHConfig, SSHConfigEntryView};
use crate::text::{decode, trim, trimmed};

verus! {

/// The stages of a host's run.
#[derive(Debug, Clone, Copy, PartialEq, Eq, Structural)]
pub enum SyncPhase {
    Idle,
    Connecting,
    Authenticating,
    Discovering,
    Diffing,
    AwaitingConfirmation,
    Applying,
    Synced,
    Skipped,
    Failed,
}

/// Why a host was left as it is, without anything having gone wrong on the
/// way to it.
#[derive(Debug, Clone, Copy, PartialEq, Eq, Structural)]
pub enum SkipCause {
    /// The remote file is not valid UTF-8.
    EncodingError,
    /// The remote file and the desired text are too large to be compared.
    TooLarge,
    /// The operator answered no.
    OperatorDecline,
}

/// Why a host's run was given up.
#[derive(Debug, Clone, Copy, PartialEq, Eq, Structural)]
pub enum FailureCause {
    ConnectionRefused,
    HandshakeFailed,
    /// Every way to authenticate that applies was tried in vain.
    AuthExhausted,
    /// The file could not be written.
    TransferError,
}

/// Where exactly a host's run stands: the stage, and what the run waits for.
#[derive(Debug, Clone, Copy, PartialEq, Eq, Structural)]
pub enum SyncStep {
    Idle,
    Connecting,
    AwaitingLoginUser,
    TryingPassword,
    ListingAgent,
    /// The agent holds `count` identities, and the one at `index` is tried.
    TryingAgentIdentity { index: usize, count: usize },
    TryingKeyFile,
    DiscoveringHome,
    AwaitingRemotePath,
    Fetching,
    AwaitingConfirmation,
    Applying,
    Synced,
    Skipped(SkipCause),
    Failed(FailureCause),
}

impl SyncStep {
    /// The stage that a step belongs to.
    pub open spec fn spec_phase(self) -> SyncPhase {
        match self {
            SyncStep::Idle => SyncPhase::Idle,
            SyncStep::Connecting => SyncPhase::Connecting,
            SyncStep::AwaitingLoginUser => SyncPhase::Authenticating,
            SyncStep::TryingPassword => SyncPhase::Authenticating,
            SyncStep::ListingAgent => SyncPhase::Authenticating,
            SyncStep::TryingAgentIdentity { .. } => SyncPhase::Authenticating,
            SyncStep::TryingKeyFile => SyncPhase::Authenticating,
            SyncStep::DiscoveringHome => SyncPhase::Discovering,
            SyncStep::AwaitingRemotePath => SyncPhase::Discovering,
            SyncStep::Fetching => SyncPhase::Diffing,
            SyncStep::AwaitingConfirmation => SyncPhase::AwaitingConfirmation,
            SyncStep::Applying => SyncPhase::Applying,
            SyncStep::Synced => SyncPhase::Synced,
            SyncStep::Skipped(_) => SyncPhase::Skipped,
            SyncStep::Failed(_) => SyncPhase::Failed,
        }
    }

    /// The stage that a step belongs to.
    #[verifier::when_used_as_spec(spec_phase)]
    pub fn phase(self) -> (phase: SyncPhase)
        ensures
            phase == self.spec_phase(),
    {
        match self {
            SyncStep::Idle => SyncPhase::Idle,
            SyncStep::Connecting => SyncPhase::Connecting,
            SyncStep::AwaitingLoginUser => SyncPhase::Authenticating,
            SyncStep::TryingPassword => SyncPhase::Authenticating,
            SyncStep::ListingAgent => SyncPhase::Authenticating,
            SyncStep::TryingAgentIdentity { .. } => SyncPhase::Authenticating,
            SyncStep::TryingKeyFile => SyncPhase::Authenticating,
            SyncStep::DiscoveringHome => SyncPhase::Discovering,
            SyncStep::AwaitingRemotePath => SyncPhase::Discovering,
            SyncStep::Fetching => SyncPhase::Diffing,
            SyncStep::AwaitingConfirmation => SyncPhase::AwaitingConfirmation,
            SyncStep::Applying => SyncPhase::Applying,
            SyncStep::Synced => SyncPhase::Synced,
            SyncStep::Skipped(_) => SyncPhase::Skipped,
            SyncStep::Failed(_) => SyncPhase::Failed,
        }
    }

    /// Whether the run is over for the host.
    pub open spec fn spec_is_terminal(self) -> bool {
        self is Synced || self is Skipped || self is Failed
    }

    /// Whether the run is over for the host.
    #[verifier::when_used_as_spec(spec_is_terminal)]
    pub fn is_terminal(self) -> (over: bool)
        ensures
            over == self.spec_is_terminal(),
    {
        match self {
            SyncStep::Synced => true,
            SyncStep::Skipped(_) => true,
            SyncStep::Failed(_) => true,
            _ => false,
        }
    }
}

/// How the operator wants the run to go.
#[derive(Debug, Clone, PartialEq, Eq)]
pub struct SyncOptions {
    /// Authenticate with a password, and with nothing else.
    pub password_auth: bool,
    /// Take the remote path that was found without asking.
    pub yes_authorized_keys_prompt: bool,
    /// The operator's home directory, where it is known.
    pub home: Option<String>,
}

/// What `SyncOptions` hold, as plain values.
pub struct SyncOptionsView {
    pub password_auth: bool,
    pub yes_authorized_keys_prompt: bool,
    pub home: Option<Seq<char>>,
}

impl View for SyncOptions {
    type V = SyncOptionsView;

    open spec fn view(&self) -> SyncOptionsView {
        SyncOptionsView {
            password_auth: self.password_auth,
            yes_authorized_keys_prompt: self.yes_authorized_keys_prompt,
            home: option_view(self.home),
        }
    }
}

/// The run of one host.
#[derive(Debug, Clone, PartialEq, Eq)]
pub struct HostSync {
    pub step: SyncStep,
    /// The user to log in as, once known.
    pub login_user: Option<String>,
    /// The remote file: while the operator is asked for it, the path that was
    /// found; afterwards the path that is used.
    pub remote_path: String,
    /// The text to write, once it was shown to the operator.
    pub desired: String,
}

/// What a `HostSync` holds, as plain values.
pub struct HostSyncView {
    pub step: SyncStep,
    pub login_user: Option<Seq<char>>,
    pub remote_path: Seq<char>,
    pub desired: Seq<char>,
}

impl View for HostSync {
    type V = HostSyncView;

    open spec fn view(&self) -> HostSyncView {
        HostSyncView {
            step: self.step,
            login_user: option_view(self.login_user),
            remote_path: self.remote_path@,
            desired: self.desired@,
        }
    }
}

/// A run that has not begun.
pub open spec fn idle() -> HostSyncView {
    HostSyncView {
        step: SyncStep::Idle,
        login_user: None,
        remote_path: Seq::empty(),
        desired: Seq::empty(),
    }
}

impl HostSync {
    /// A run that has not begun.
    pub fn new() -> (run: HostSync)
        ensures
            run@ == idle(),
    {
        HostSync {
            step: SyncStep::Idle,
            login_user: None,
            remote_path: String::new(),
            desired: String::new(),
        }
    }
}

/// What the program reports back.
#[derive(Debug, Clone, PartialEq, Eq)]
pub enum SyncEvent {
    /// The host's turn has come.
    Start,
    /// The connection stands and the handshake is done.
    Connected,
    ConnectFailed,
    HandshakeFailed,
    /// The line that the operator typed in answer to the last question.
    Line(String),
    AuthSucceeded,
    AuthFailed,
    /// The agent was reached and holds this many identities.
    AgentIdentities(usize),
    AgentUnavailable,
    /// What the remote side printed as the login user's home directory.
    Home(String),
    HomeUnknown,
    /// The bytes of the remote file.
    RemoteContent(Vec<u8>),
    RemoteUnreadable,
    Written,
    WriteFailed,
}

/// What a `SyncEvent` holds, as plain values.
pub enum SyncEventView {
    Start,
    Connected,
    ConnectFailed,
    HandshakeFailed,
    Line(Seq<char>),
    AuthSucceeded,
    AuthFailed,
    AgentIdentities(usize),
    AgentUnavailable,
    Home(Seq<char>),
    HomeUnknown,
    RemoteContent(Seq<u8>),
    RemoteUnreadable,
    Written,
    WriteFailed,
}

impl View for SyncEvent {
    type V = SyncEventView;

    open spec fn view(&self) -> SyncEventView {
        match self {
            SyncEvent::Start => SyncEventView::Start,
            SyncEvent::Connected => SyncEventView::Connected,
            SyncEvent::ConnectFailed => SyncEventView::ConnectFailed,
            SyncEvent::HandshakeFailed => SyncEventView::HandshakeFailed,
            SyncEvent::Line(s) => SyncEventView::Line(s@),
            SyncEvent::AuthSucceeded => SyncEventView::AuthSucceeded,
            SyncEvent::AuthFailed => SyncEventView::AuthFailed,
            SyncEvent::AgentIdentities(n) => SyncEventView::AgentIdentities(*n),
            SyncEvent::AgentUnavailable => SyncEventView::AgentUnavailable,
            SyncEvent::Home(s) => SyncEventView::Home(s@),
            SyncEvent::HomeUnknown => SyncEventView::HomeUnknown,
            SyncEvent::RemoteContent(b) => SyncEventView::RemoteContent(b@),
            SyncEvent::RemoteUnreadable => SyncEventView::RemoteUnreadable,
            SyncEvent::Written => SyncEventView::Written,
            SyncEvent::WriteFailed => SyncEventView::WriteFailed,
        }
    }
}

/// What the program is to do next.
#[derive(Debug, Clone, PartialEq, Eq)]
pub enum SyncAction {
    /// Nothing is pending for the host: go on to the next one.
    Bypass,
    /// Connect and shake hands.
    Connect { address: String, port: String },
    /// Ask whom to log in as.
    AskLoginUser { default: String },
    /// Ask for the password and try it, once.
    TryPassword { user: String },
    /// Reach the agent and count its identities.
    ListAgentIdentities,
    /// Try the agent's identity at `index`.
    TryAgentIdentity { user: String, index: usize },
    /// Ask for a private key file and its passphrase and try them, once.
    TryKeyFile { user: String, default_key_file: String },
    /// Have the remote side print the login user's home directory.
    DiscoverHome,
    /// Ask for the path of the remote file.
    AskRemotePath { default: String },
    /// Fetch the remote file.
    Fetch { path: String },
    /// Show the difference and ask whether to write.
    Confirm { path: String, diff: Vec<DiffSegment> },
    /// Ask once more whether to write.
    ConfirmAgain { path: String },
    /// Write `content`, which takes `length` bytes, with the file mode `mode`.
    Write { path: String, mode: u32, length: usize, content: String },
    /// The run is over for the host.
    Finish,
    /// The event is none that the run waits for; nothing has changed.
    Unexpected,
}

/// What a `SyncAction` holds, as plain values.
pub enum SyncActionView {
    Bypass,
    Connect { address: Seq<char>, port: Seq<char> },
    AskLoginUser { default: Seq<char> },
    TryPassword { user: Seq<char> },
    ListAgentIdentities,
    TryAgentIdentity { user: Seq<char>, index: usize },
    TryKeyFile { user: Seq<char>, default_key_file: Seq<char> },
    DiscoverHome,
    AskRemotePath { default: Seq<char> },
    Fetch { path: Seq<char> },
    Confirm { path: Seq<char>, diff: Seq<DiffSegmentView> },
    ConfirmAgain { path: Seq<char> },
    Write { path: Seq<char>, mode: u32, length: usize, content: Seq<char> },
    Finish,
    Unexpected,
}

impl View for SyncAction {
    type V = SyncActionView;

    open spec fn view(&self) -> SyncActionView {
        match self {
            SyncAction::Bypass => SyncActionView::Bypass,
            SyncAction::Connect { address, port } => SyncActionView::Connect {
                address: address@,
                port: port@,
            },
            SyncAction::AskLoginUser { default } => SyncActionView::AskLoginUser {
                default: default@,
            },
            SyncAction::TryPassword { user } => SyncActionView::TryPassword { user: user@ },
            SyncAction::ListAgentIdentities => SyncActionView::ListAgentIdentities,
            SyncAction::TryAgentIdentity { user, index } => SyncActionView::TryAgentIdentity {
                user: user@,
                index: *index,
            },
            SyncAction::TryKeyFile { user, default_key_file } => SyncActionView::TryKeyFile {
                user: user@,
                default_key_file: default_key_file@,
            },
            SyncAction::DiscoverHome => SyncActionView::DiscoverHome,
            SyncAction::AskRemotePath { default } => SyncActionView::AskRemotePath {
                default: default@,
            },
            SyncAction::Fetch { path } => SyncActionView::Fetch { path: path@ },
            SyncAction::Confirm { path, diff } => SyncActionView::Confirm {
                path: path@,
                diff: segment_views(diff@),
            },
            SyncAction::ConfirmAgain { path } => SyncActionView::ConfirmAgain { path: path@ },
            SyncAction::Write { path, mode, length, content } => SyncActionView::Write {
                path: path@,
                mode: *mode,
                length: *length,
                content: content@,
            },
            SyncAction::Finish => SyncActionView::Finish,
            SyncAction::Unexpected => SyncActionView::Unexpected,
        }
    }
}

/// The user to log in as where the operator names none.
pub open spec fn default_login_user() -> Seq<char> {
    "root"@
}

/// The `authorized_keys` file below a home directory. Whitespace around what
/// the remote side printed does not count.
pub open spec fn keys_file_below(home: Seq<char>) -> Seq<char> {
    trimmed(home) + "/.ssh/authorized_keys"@
}

/// The mode of the written file: for its owner to read and write, and for
/// nobody else.
pub open spec fn file_mode() -> u32 {
    0o600
}

/// The user that the run logs in as; empty until known.
pub open spec fn login_user_of(state: HostSyncView) -> Seq<char> {
    match state.login_user {
        Some(user) => user,
        None => Seq::empty(),
    }
}

/// The run at another step, with what it holds unchanged.
pub open spec fn at(state: HostSyncView, step: SyncStep) -> HostSyncView {
    HostSyncView { step, ..state }
}

/// The host's turn has come: a host with pending changes is resolved and
/// connected to, any other is passed by.
pub open spec fn begin(
    state: HostSyncView,
    host: HostView,
    table: Seq<SSHConfigEntryView>,
) -> (HostSyncView, SyncActionView) {
    if host.sync_todo {
        let target = resolved(host, table);
        (
            HostSyncView {
                step: SyncStep::Connecting,
                login_user: target.login_user,
                remote_path: Seq::empty(),
                desired: Seq::empty(),
            },
            SyncActionView::Connect { address: target.address, port: target.port },
        )
    } else {
        (state, SyncActionView::Bypass)
    }
}

/// The login user is known: with password authentication the password is
/// tried and nothing else, otherwise the agent comes first.
pub open spec fn begin_auth(state: HostSyncView, options: SyncOptionsView) -> (
    HostSyncView,
    SyncActionView,
) {
    if options.password_auth {
        (
            at(state, SyncStep::TryingPassword),
            SyncActionView::TryPassword { user: login_user_of(state) },
        )
    } else {
        (at(state, SyncStep::ListingAgent), SyncActionView::ListAgentIdentities)
    }
}

/// The agent was of no help: a private key file is tried.
pub open spec fn offer_key_file(state: HostSyncView, options: SyncOptionsView) -> (
    HostSyncView,
    SyncActionView,
) {
    (
        at(state, SyncStep::TryingKeyFile),
        SyncActionView::TryKeyFile {
            user: login_user_of(state),
            default_key_file: default_key_file(options.home),
        },
    )
}

/// The session is authenticated: the remote file is looked for.
pub open spec fn begin_discovery(state: HostSyncView) -> (HostSyncView, SyncActionView) {
    (at(state, SyncStep::DiscoveringHome), SyncActionView::DiscoverHome)
}

/// The remote path is settled: the file is fetched.
pub open spec fn begin_fetch(state: HostSyncView, path: Seq<char>) -> (
    HostSyncView,
    SyncActionView,
) {
    (
        HostSyncView { step: SyncStep::Fetching, remote_path: path, ..state },
        SyncActionView::Fetch { path },
    )
}

/// The remote file's text is known: it is compared with the text that the
/// model asks for, and the operator is asked whether to write that text.
pub open spec fn review(
    state: HostSyncView,
    current: Seq<char>,
    host: HostView,
    db: DatabaseView,
) -> (HostSyncView, SyncActionView) {
    let desired = desired_text(host, db);
    if comparable(current, desired) {
        (
            HostSyncView { step: SyncStep::AwaitingConfirmation, desired, ..state },
            SyncActionView::Confirm {
                path: state.remote_path,
                diff: changeset_diffs(current, desired, line_feed()),
            },
        )
    } else {
        (at(state, SyncStep::Skipped(SkipCause::TooLarge)), SyncActionView::Finish)
    }
}

/// The run is over for the host.
pub open spec fn finish(state: HostSyncView, step: SyncStep) -> (HostSyncView, SyncActionView) {
    (at(state, step), SyncActionView::Finish)
}

/// What follows an event: the run's next state and what the program is to do.
///
/// A run that waits for something else, or that is over, stays as it is and
/// answers `Unexpected`.
pub open spec fn next(
    state: HostSyncView,
    event: SyncEventView,
    host: HostView,
    db: DatabaseView,
    table: Seq<SSHConfigEntryView>,
    options: SyncOptionsView,
) -> (HostSyncView, SyncActionView) {
    match (state.step, event) {
        (SyncStep::Idle, SyncEventView::Start) => begin(state, host, table),
        (SyncStep::Connecting, SyncEventView::Connected) => {
            if state.login_user is Some {
                begin_auth(state, options)
            } else {
                (
                    at(state, SyncStep::AwaitingLoginUser),
                    SyncActionView::AskLoginUser { default: default_login_user() },
                )
            }
        },
        (SyncStep::Connecting, SyncEventView::ConnectFailed) => finish(
            state,
            SyncStep::Failed(FailureCause::ConnectionRefused),
        ),
        (SyncStep::Connecting, SyncEventView::HandshakeFailed) => finish(
            state,
            SyncStep::Failed(FailureCause::HandshakeFailed),
        ),
        (SyncStep::AwaitingLoginUser, SyncEventView::Line(input)) => begin_auth(
            HostSyncView { login_user: Some(answer_or(input, default_login_user())), ..state },
            options,
        ),
        (SyncStep::TryingPassword, SyncEventView::AuthSucceeded) => begin_discovery(state),
        (SyncStep::TryingPassword, SyncEventView::AuthFailed) => finish(
            state,
            SyncStep::Failed(FailureCause::AuthExhausted),
        ),
        (SyncStep::ListingAgent, SyncEventView::AgentIdentities(count)) => {
            if count > 0 {
                (
                    at(state, SyncStep::TryingAgentIdentity { index: 0, count }),
                    SyncActionView::TryAgentIdentity { user: login_user_of(state), index: 0 },
                )
            } else {
                offer_key_file(state, options)
            }
        },
        (SyncStep::ListingAgent, SyncEventView::AgentUnavailable) => offer_key_file(
            state,
            options,
        ),
        (SyncStep::TryingAgentIdentity { .. }, SyncEventView::AuthSucceeded) => begin_discovery(
            state,
        ),
        (SyncStep::TryingAgentIdentity { index, count }, SyncEventView::AuthFailed) => {
            if index + 1 < count {
                (
                    at(
                        state,
                        SyncStep::TryingAgentIdentity { index: (index + 1) as usize, count },
                    ),
                    SyncActionView::TryAgentIdentity {
                        user: login_user_of(state),
                        index: (index + 1) as usize,
                    },
                )
            } else {
                offer_key_file(state, options)
            }
        },
        (SyncStep::TryingAgentIdentity { .. }, SyncEventView::AgentUnavailable) => offer_key_file(
            state,
            options,
        ),
        (SyncStep::TryingKeyFile, SyncEventView::AuthSucceeded) => begin_discovery(state),
        (SyncStep::TryingKeyFile, SyncEventView::AuthFailed) => finish(
            state,
            SyncStep::Failed(FailureCause::AuthExhausted),
        ),
        (SyncStep::DiscoveringHome, SyncEventView::Home(home)) => {
            if options.yes_authorized_keys_prompt {
                begin_fetch(state, keys_file_below(home))
            } else {
                (
                    HostSyncView {
                        step: SyncStep::AwaitingRemotePath,
                        remote_path: keys_file_below(home),
                        ..state
                    },
                    SyncActionView::AskRemotePath { default: keys_file_below(home) },
                )
            }
        },
        (SyncStep::DiscoveringHome, SyncEventView::HomeUnknown) => (
            HostSyncView {
                step: SyncStep::AwaitingRemotePath,
                remote_path: Seq::empty(),
                ..state
            },
            SyncActionView::AskRemotePath { default: Seq::empty() },
        ),
        (SyncStep::AwaitingRemotePath, SyncEventView::Line(input)) => begin_fetch(
            state,
            answer_or(input, state.remote_path),
        ),
        (SyncStep::Fetching, SyncEventView::RemoteContent(bytes)) => {
            if valid_utf8(bytes) {
                review(state, decode_utf8(bytes), host, db)
            } else {
                finish(state, SyncStep::Skipped(SkipCause::EncodingError))
            }
        },
        (SyncStep::Fetching, SyncEventView::RemoteUnreadable) => review(
            state,
            Seq::empty(),
            host,
            db,
        ),
        (SyncStep::AwaitingConfirmation, SyncEventView::Line(input)) => {
            match yes_no(input) {
                Some(true) => (
                    at(state, SyncStep::Applying),
                    SyncActionView::Write {
                        path: state.remote_path,
                        mode: file_mode(),
                        length: encode_utf8(state.desired).len() as usize,
                        content: state.desired,
                    },
                ),
                Some(false) => finish(state, SyncStep::Skipped(SkipCause::OperatorDecline)),
                None => (state, SyncActionView::ConfirmAgain { path: state.remote_path }),
            }
        },
        (SyncStep::Applying, SyncEventView::Written) => finish(state, SyncStep::Synced),
        (SyncStep::Applying, SyncEventView::WriteFailed) => finish(
            state,
            SyncStep::Failed(FailureCause::TransferError),
        ),
        _ => (state, SyncActionView::Unexpected),
    }
}

/// The text of the remote file that an event reports: what the bytes encode,
/// or nothing where the file could not be read. There is none where the bytes
/// are no text, and for any other event.
pub open spec fn fetched_text(event: SyncEventView) -> Option<Seq<char>> {
    match event {
        SyncEventView::RemoteContent(bytes) => if valid_utf8(bytes) {
            Some(decode_utf8(bytes))
        } else {
            None
        },
        SyncEventView::RemoteUnreadable => Some(Seq::empty()),
        _ => None,
    }
}

/// Whether an action shows the operator no line added and none removed, if
/// it shows a difference at all.
pub open spec fn shows_no_change(action: SyncActionView) -> bool {
    action matches SyncActionView::Confirm { diff, .. } ==> unchanged(diff)
}

/// Whether the difference that an action shows, if it shows one, accounts for
/// the text that the remote file holds and for the text that is to be
/// written.
pub open spec fn shows_both_texts(
    action: SyncActionView,
    current: Seq<char>,
    desired: Seq<char>,
) -> bool {
    action matches SyncActionView::Confirm { diff, .. } ==> accounts_for(
        diff,
        current,
        desired,
        line_feed(),
    )
}

/// Whether an event settles that the host's file now holds what the model
/// asks for: the write was reported as done.
pub open spec fn marks_synced(step: SyncStep, event: SyncEventView) -> bool {
    step is Applying && event is Written
}

/// The model after the host at `index` was brought in line: its pending flag
/// is cleared, and nothing else has changed.
pub open spec fn with_synced(db: DatabaseView, index: int) -> DatabaseView {
    DatabaseView {
        hosts: db.hosts.update(index, HostView { sync_todo: false, ..db.hosts[index] }),
        ..db
    }
}

fn user_name(state: &HostSync) -> (user: String)
    ensures
        user@ == login_user_of(state@),
{
    match &state.login_user {
        Some(user) => user.clone(),
        None => String::new(),
    }
}

fn end(state: HostSync, step: SyncStep) -> (out: (HostSync, SyncAction))
    ensures
        (out.0@, out.1@) == finish(state@, step),
{
    (HostSync { step, ..state }, SyncAction::Finish)
}

fn start(state: HostSync, host: &Host, config: &SSHConfig) -> (out: (HostSync, SyncAction))
    ensures
        (out.0@, out.1@) == begin(state@, host@, config@),
{
    if !host.sync_todo {
        return (state, SyncAction::Bypass);
    }
    let target = resolve(host, config);
    (
        HostSync {
            step: SyncStep::Connecting,
            login_user: target.login_user,
            remote_path: String::new(),
            desired: String::new(),
        },
        SyncAction::Connect { address: target.address, port: target.port },
    )
}

fn start_auth(state: HostSync, options: &SyncOptions) -> (out: (HostSync, SyncAction))
    ensures
        (out.0@, out.1@) == begin_auth(state@, options@),
{
    if options.password_auth {
        let user = user_name(&state);
        (HostSync { step: SyncStep::TryingPassword, ..state }, SyncAction::TryPassword { user })
    } else {
        (HostSync { step: SyncStep::ListingAgent, ..state }, SyncAction::ListAgentIdentities)
    }
}

fn try_key_file(state: HostSync, options: &SyncOptions) -> (out: (HostSync, SyncAction))
    ensures
        (out.0@, out.1@) == offer_key_file(state@, options@),
{
    let user = user_name(&state);
    let default_key_file = match &options.home {
        Some(dir) => default_private_key_file(Some(dir.as_str())),
        None => default_private_key_file(None),
    };
    (
        HostSync { step: SyncStep::TryingKeyFile, ..state },
        SyncAction::TryKeyFile { user, default_key_file },
    )
}

fn start_discovery(state: HostSync) -> (out: (HostSync, SyncAction))
    ensures
        (out.0@, out.1@) == begin_discovery(state@),
{
    (HostSync { step: SyncStep::DiscoveringHome, ..state }, SyncAction::DiscoverHome)
}

fn start_fetch(state: HostSync, path: String) -> (out: (HostSync, SyncAction))
    ensures
        (out.0@, out.1@) == begin_fetch(state@, path@),
{
    let shown = path.clone();
    (
        HostSync { step: SyncStep::Fetching, remote_path: path, ..state },
        SyncAction::Fetch { path: shown },
    )
}

fn show_difference(state: HostSync, current: &str, host: &Host, db: &Database) -> (out: (
    HostSync,
    SyncAction,
))
    ensures
        (out.0@, out.1@) == review(state@, current@, host@, db@),
        current@ == desired_text(host@, db@) ==> shows_no_change(out.1@),
        shows_both_texts(out.1@, current@, desired_text(host@, db@)),
{
    let desired = compile(host, db);
    match diff_lines(current, desired.as_str()) {
        Some(diff) => {
            let path = state.remote_path.clone();
            (
                HostSync { step: SyncStep::AwaitingConfirmation, desired, ..state },
                SyncAction::Confirm { path, diff },
            )
        },
        None => end(state, SyncStep::Skipped(SkipCause::TooLarge)),
    }
}

/// The file below the home directory that the remote side printed.
fn keys_file(home: &str) -> (path: String)
    ensures
        path@ == keys_file_below(home@),
{
    let mut path = trim(home);
    path.append("/.ssh/authorized_keys");
    path
}

/// Takes a host's run one step further.
///
/// `event` is what came of the action that the run asked for last; a run
/// starts in `SyncStep::Idle` with `SyncEvent::Start`. The answer is the run's
/// next state and the next action. The model is touched in one case only:
/// when a write is reported as done, the host's pending flag is cleared.
pub fn step(
    state: HostSync,
    event: SyncEvent,
    db: &mut Database,
    index: usize,
    config: &SSHConfig,
    options: &SyncOptions,
) -> (out: (HostSync, SyncAction))
    requires
        index < old(db).hosts@.len(),
    ensures
        (out.0@, out.1@) == next(
            state@,
            event@,
            old(db)@.hosts[index as int],
            old(db)@,
            config@,
            options@,
        ),
        marks_synced(state.step, event@) ==> final(db)@ == with_synced(old(db)@, index as int),
        !marks_synced(state.step, event@) ==> *final(db) == *old(db),
        state.step is Fetching && fetched_text(event@) == Some(
            desired_text(old(db)@.hosts[index as int], old(db)@),
        ) ==> shows_no_change(out.1@),
        state.step is Fetching && fetched_text(event@) is Some ==> shows_both_texts(
            out.1@,
            fetched_text(event@)->0,
            desired_text(old(db)@.hosts[index as int], old(db)@),
        ),
        out.1@ matches SyncActionView::Write { length, content, .. } ==> length == encode_utf8(
            content,
        ).len(),
{
    match (state.step, event) {
        (SyncStep::Idle, SyncEvent::Start) => start(state, &db.hosts[index], config),
        (SyncStep::Connecting, SyncEvent::Connected) => {
            if state.login_user.is_some() {
                start_auth(state, options)
            } else {
                (
                    HostSync { step: SyncStep::AwaitingLoginUser, ..state },
                    SyncAction::AskLoginUser { default: "root".to_owned() },
                )
            }
        },
        (SyncStep::Connecting, SyncEvent::ConnectFailed) => end(
            state,
            SyncStep::Failed(FailureCause::ConnectionRefused),
        ),
        (SyncStep::Connecting, SyncEvent::HandshakeFailed) => end(
            state,
            SyncStep::Failed(FailureCause::HandshakeFailed),
        ),
        (SyncStep::AwaitingLoginUser, SyncEvent::Line(input)) => {
            let user = answer_or_default(input.as_str(), "root");
            start_auth(HostSync { login_user: Some(user), ..state }, options)
        },
        (SyncStep::TryingPassword, SyncEvent::AuthSucceeded) => start_discovery(state),
        (SyncStep::TryingPassword, SyncEvent::AuthFailed) => end(
            state,
            SyncStep::Failed(FailureCause::AuthExhausted),
        ),
        (SyncStep::ListingAgent, SyncEvent::AgentIdentities(count)) => {
            if count > 0 {
                let user = user_name(&state);
                (
                    HostSync { step: SyncStep::TryingAgentIdentity { index: 0, count }, ..state },
                    SyncAction::TryAgentIdentity { user, index: 0 },
                )
            } else {
                try_key_file(state, options)
            }
        },
        (SyncStep::ListingAgent, SyncEvent::AgentUnavailable) => try_key_file(state, options),
        (SyncStep::TryingAgentIdentity { .. }, SyncEvent::AuthSucceeded) => start_discovery(
            state,
        ),
        (SyncStep::TryingAgentIdentity { index: tried, count }, SyncEvent::AuthFailed) => {
            if tried < count && tried + 1 < count {
                let user = user_name(&state);
                (
                    HostSync {
                        step: SyncStep::TryingAgentIdentity { index: tried + 1, count },
                        ..state
                    },
                    SyncAction::TryAgentIdentity { user, index: tried + 1 },
                )
            } else {
                try_key_file(state, options)
            }
        },
        (SyncStep::TryingAgentIdentity { .. }, SyncEvent::AgentUnavailable) => try_key_file(
            state,
            options,
        ),
        (SyncStep::TryingKeyFile, SyncEvent::AuthSucceeded) => start_discovery(state),
        (SyncStep::TryingKeyFile, SyncEvent::AuthFailed) => end(
            state,
            SyncStep::Failed(FailureCause::AuthExhausted),
        ),
        (SyncStep::DiscoveringHome, SyncEvent::Home(home)) => {
            let found = keys_file(home.as_str());
            if options.yes_authorized_keys_prompt {
                start_fetch(state, found)
            } else {
                let default = found.clone();
                (
                    HostSync { step: SyncStep::AwaitingRemotePath, remote_path: found, ..state },
                    SyncAction::AskRemotePath { default },
                )
            }
        },
        (SyncStep::DiscoveringHome, SyncEvent::HomeUnknown) => (
            HostSync { step: SyncStep::AwaitingRemotePath, remote_path: String::new(), ..state },
            SyncAction::AskRemotePath { default: String::new() },
        ),
        (SyncStep::AwaitingRemotePath, SyncEvent::Line(input)) => {
            let path = answer_or_default(input.as_str(), state.remote_path.as_str());
            start_fetch(state, path)
        },
        (SyncStep::Fetching, SyncEvent::RemoteContent(bytes)) => {
            match decode(&bytes) {
                Some(current) => show_difference(state, current.as_str(), &db.hosts[index], db),
                None => end(state, SyncStep::Skipped(SkipCause::EncodingError)),
            }
        },
        (SyncStep::Fetching, SyncEvent::RemoteUnreadable) => {
            let nothing = String::new();
            show_difference(state, nothing.as_str(), &db.hosts[index], db)
        },
        (SyncStep::AwaitingConfirmation, SyncEvent::Line(input)) => {
            match yes_no_answer(input.as_str()) {
                Some(true) => {
                    let path = state.remote_path.clone();
                    let content = state.desired.clone();
                    let length = content.as_str().as_bytes().len();
                    (
                        HostSync { step: SyncStep::Applying, ..state },
                        SyncAction::Write { path, mode: 0o600, length, content },
                    )
                },
                Some(false) => end(state, SyncStep::Skipped(SkipCause::OperatorDecline)),
                None => {
                    let path = state.remote_path.clone();
                    (state, SyncAction::ConfirmAgain { path })
                },
            }
        },
        (SyncStep::Applying, SyncEvent::Written) => {
            db.hosts[index].sync_todo = false;
            assert(db@.hosts =~= old(db)@.hosts.update(
                index as int,
                HostView { sync_todo: false, ..old(db)@.hosts[index as int] },
            ));
            end(state, SyncStep::Synced)
        },
        (SyncStep::Applying, SyncEvent::WriteFailed) => end(
            state,
            SyncStep::Failed(FailureCause::TransferError),
        ),
        _ => (state, SyncAction::Unexpected),
    }
}

/// The first host with pending changes at or behind the place `from`, if
/// there is one. Hosts are reconciled one after the other, in their order.
pub fn next_pending(db: &Database, from: usize) -> (found: Option<usize>)
    ensures
        match found {
            Some(i) => {
                &&& from <= i < db@.hosts.len()
                &&& db@.hosts[i as int].sync_todo
                &&& forall|k: int| from <= k < i ==> !(#[trigger] db@.hosts[k]).sync_todo
            },
            None => forall|k: int|
                from <= k < db@.hosts.len() ==> !(#[trigger] db@.hosts[k]).sync_todo,
        },
{
    let mut i: usize = from;
    while i < db.hosts.len()
        invariant
            from <= i,
            forall|k: int| from <= k < i && k < db@.hosts.len() ==> !(#[trigger] db@.hosts[k]).sync_todo,
        decreases db.hosts@.len() - i,
    {
        if db.hosts[i].sync_todo {
            return Some(i);
        }
        i += 1;
    }
    None
}

} // verus!

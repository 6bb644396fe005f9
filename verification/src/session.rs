//! The state of one device connection, and what the connection's two
//! tasks decide: the guard that fires once after the configuration
//! deadline, and the loop that turns each decoded event into actions.
//!
//! Both tasks run under the lock of the device registry and act on the
//! status they find there, so whichever takes the lock first decides.

use vstd::prelude::*;

verus! {

/// How long a connection may stay in `Configuring`, in milliseconds.
pub const CONFIGURATION_TIMEOUT_MS: u64 = 1500;

/// Where a connection stands. `Failed` is where a connection ends that did
/// not leave `Configuring` before the deadline.
#[derive(Clone, Copy, Debug, PartialEq, Eq, Structural)]
pub enum SerialDeviceStatus {
    Disconnected,
    Connecting,
    Configuring,
    Configured,
    Connected,
    Failed,
}

/// What can happen to a connection.
#[derive(Clone, Copy, Debug, PartialEq, Eq, Structural)]
pub enum SessionEvent {
    /// A connection attempt was started.
    ConnectRequested,
    /// The transport handshake succeeded and configuration was requested.
    ConfigureRequested,
    /// The device signalled the end of the configuration round `config_id`.
    ConfigurationComplete { config_id: u32 },
    /// The pipeline has announced the successful configuration.
    SuccessAnnounced,
    /// The configuration deadline has passed.
    DeadlineFired,
}

impl SerialDeviceStatus {
    /// The place of a status in the life of a connection.
    pub open spec fn rank(self) -> nat {
        match self {
            SerialDeviceStatus::Disconnected => 0,
            SerialDeviceStatus::Connecting => 1,
            SerialDeviceStatus::Configuring => 2,
            SerialDeviceStatus::Configured => 3,
            SerialDeviceStatus::Connected => 4,
            SerialDeviceStatus::Failed => 5,
        }
    }

    /// The status that follows on an event in round `round`. An event that
    /// does not fit the status changes nothing: a deadline that fires
    /// when the connection is no longer `Configuring` is stale, and so is
    /// the end of another configuration round.
    pub open spec fn after(self, event: SessionEvent, round: u32) -> SerialDeviceStatus {
        match (self, event) {
            (SerialDeviceStatus::Disconnected, SessionEvent::ConnectRequested) => {
                SerialDeviceStatus::Connecting
            },
            (SerialDeviceStatus::Connecting, SessionEvent::ConfigureRequested) => {
                SerialDeviceStatus::Configuring
            },
            (SerialDeviceStatus::Configuring, SessionEvent::ConfigurationComplete { config_id }) => {
                if config_id == round {
                    SerialDeviceStatus::Configured
                } else {
                    self
                }
            },
            (SerialDeviceStatus::Configured, SessionEvent::SuccessAnnounced) => {
                SerialDeviceStatus::Connected
            },
            (SerialDeviceStatus::Configuring, SessionEvent::DeadlineFired) => {
                SerialDeviceStatus::Failed
            },
            _ => self,
        }
    }
}

/// A message for the user interface on how the configuration of a
/// connection ended.
#[derive(Clone, Debug, PartialEq, Eq)]
pub struct ConfigurationStatus {
    pub port_name: String,
    pub successful: bool,
    pub message: Option<String>,
}

/// What a configuration message is, as a mathematical value.
pub struct ConfigurationStatusView {
    pub port_name: Seq<char>,
    pub successful: bool,
    pub message: Option<Seq<char>>,
}

impl View for ConfigurationStatus {
    type V = ConfigurationStatusView;

    open spec fn view(&self) -> ConfigurationStatusView {
        ConfigurationStatusView {
            port_name: self.port_name@,
            successful: self.successful,
            message: match self.message {
                Some(text) => Some(text@),
                None => None,
            },
        }
    }
}

/// What the user is told when the deadline passes.
pub open spec fn timeout_message() -> Seq<char> {
    "Configuration timed out. Are you sure this is a Meshtastic device?"@
}

/// The failure that is reported for a connection that timed out.
pub open spec fn timeout_failure(port_name: Seq<char>) -> ConfigurationStatusView {
    ConfigurationStatusView { port_name, successful: false, message: Some(timeout_message()) }
}

/// The success that is reported for a connection that was configured.
pub open spec fn configuration_success(port_name: Seq<char>) -> ConfigurationStatusView {
    ConfigurationStatusView { port_name, successful: true, message: None }
}

/// A request to show a notification to the user.
#[derive(Clone, Debug, PartialEq, Eq)]
pub struct NotificationConfig {
    pub title: String,
    pub body: String,
}

/// What a notification request is, as a mathematical value.
pub struct NotificationView {
    pub title: Seq<char>,
    pub body: Seq<char>,
}

impl View for NotificationConfig {
    type V = NotificationView;

    open spec fn view(&self) -> NotificationView {
        NotificationView { title: self.title@, body: self.body@ }
    }
}

/// What one decoded event means for the pipeline. The four facets are
/// independent of each other.
#[derive(Clone, Debug, PartialEq, Eq)]
pub struct DeviceUpdateResult {
    /// The device record that the user interface sees has changed.
    pub device_updated: bool,
    /// The graph must be rebuilt from what the device now knows.
    pub regenerate_graph: bool,
    /// The event completed the configuration.
    pub configuration_success: bool,
    /// A notification for the user, if the event calls for one.
    pub notification_config: Option<NotificationConfig>,
}

/// What an update is, as a mathematical value.
pub struct DeviceUpdateView {
    pub device_updated: bool,
    pub regenerate_graph: bool,
    pub configuration_success: bool,
    pub notification_config: Option<NotificationView>,
}

impl View for DeviceUpdateResult {
    type V = DeviceUpdateView;

    open spec fn view(&self) -> DeviceUpdateView {
        DeviceUpdateView {
            device_updated: self.device_updated,
            regenerate_graph: self.regenerate_graph,
            configuration_success: self.configuration_success,
            notification_config: match self.notification_config {
                Some(request) => Some(request@),
                None => None,
            },
        }
    }
}

/// One thing for the pipeline to do for an event.
#[derive(Clone, Debug, PartialEq, Eq)]
pub enum PipelineAction {
    /// Rebuild the shared graph from the device, under the graph lock.
    RegenerateGraph,
    /// Forward the device record to the user interface.
    DispatchDevice,
    /// Forward the graph to the user interface.
    DispatchGraph,
    /// Tell the user interface how the configuration ended.
    DispatchConfigurationStatus(ConfigurationStatus),
    /// Show a notification to the user.
    Notify(NotificationConfig),
}

/// What an action is, as a mathematical value.
pub enum ActionView {
    RegenerateGraph,
    DispatchDevice,
    DispatchGraph,
    DispatchConfigurationStatus(ConfigurationStatusView),
    Notify(NotificationView),
}

impl View for PipelineAction {
    type V = ActionView;

    open spec fn view(&self) -> ActionView {
        match self {
            PipelineAction::RegenerateGraph => ActionView::RegenerateGraph,
            PipelineAction::DispatchDevice => ActionView::DispatchDevice,
            PipelineAction::DispatchGraph => ActionView::DispatchGraph,
            PipelineAction::DispatchConfigurationStatus(status) => {
                ActionView::DispatchConfigurationStatus(status@)
            },
            PipelineAction::Notify(request) => ActionView::Notify(request@),
        }
    }
}

/// The views of a sequence of actions.
pub open spec fn action_views(actions: Seq<PipelineAction>) -> Seq<ActionView> {
    Seq::new(actions.len(), |i: int| actions[i]@)
}

/// Whether an event's update makes the pipeline announce success: the
/// update says that configuration succeeded, and the connection is
/// `Configured`.
pub open spec fn announces_success(status: SerialDeviceStatus, update: DeviceUpdateView) -> bool {
    update.configuration_success && status == SerialDeviceStatus::Configured
}

/// What the pipeline does for one event, in this order: rebuild the graph
/// (the one step under the graph lock), forward the device, forward the
/// graph, announce success, show the notification.
pub open spec fn planned_actions(
    status: SerialDeviceStatus,
    port_name: Seq<char>,
    update: DeviceUpdateView,
) -> Seq<ActionView> {
    let rebuild = if update.regenerate_graph {
        seq![ActionView::RegenerateGraph]
    } else {
        Seq::empty()
    };
    let device = if update.device_updated {
        seq![ActionView::DispatchDevice]
    } else {
        Seq::empty()
    };
    let graph = if update.regenerate_graph {
        seq![ActionView::DispatchGraph]
    } else {
        Seq::empty()
    };
    let success = if announces_success(status, update) {
        seq![ActionView::DispatchConfigurationStatus(configuration_success(port_name))]
    } else {
        Seq::empty()
    };
    let notice = match update.notification_config {
        Some(request) => seq![ActionView::Notify(request)],
        None => Seq::empty(),
    };
    rebuild + device + graph + success + notice
}

/// The state of one device connection.
#[derive(Clone, Copy, Debug, PartialEq, Eq, Structural)]
pub struct DeviceSession {
    pub status: SerialDeviceStatus,
    /// The number of the configuration round that this connection asked
    /// for.
    pub config_id: u32,
}

impl DeviceSession {
    /// A session that has not begun to connect.
    pub fn new(config_id: u32) -> (session: DeviceSession)
        ensures
            session == (DeviceSession { status: SerialDeviceStatus::Disconnected, config_id }),
    {
        DeviceSession { status: SerialDeviceStatus::Disconnected, config_id }
    }

    /// Takes the session through one event and says whether the status
    /// changed.
    pub fn handle(&mut self, event: SessionEvent) -> (moved: bool)
        ensures
            final(self).status == old(self).status.after(event, old(self).config_id),
            final(self).config_id == old(self).config_id,
            moved == (final(self).status != old(self).status),
    {
        let next = match (self.status, event) {
            (SerialDeviceStatus::Disconnected, SessionEvent::ConnectRequested) => {
                SerialDeviceStatus::Connecting
            },
            (SerialDeviceStatus::Connecting, SessionEvent::ConfigureRequested) => {
                SerialDeviceStatus::Configuring
            },
            (SerialDeviceStatus::Configuring, SessionEvent::ConfigurationComplete { config_id }) => {
                if config_id == self.config_id {
                    SerialDeviceStatus::Configured
                } else {
                    self.status
                }
            },
            (SerialDeviceStatus::Configured, SessionEvent::SuccessAnnounced) => {
                SerialDeviceStatus::Connected
            },
            (SerialDeviceStatus::Configuring, SessionEvent::DeadlineFired) => {
                SerialDeviceStatus::Failed
            },
            _ => self.status,
        };
        let moved = next != self.status;
        self.status = next;
        moved
    }

    /// What the guard does when the deadline has passed: where the session
    /// is still `Configuring` it fails the session and hands back the
    /// failure to report; in any other status the deadline is stale and
    /// nothing happens.
    pub fn on_deadline(&mut self, port_name: String) -> (failure: Option<ConfigurationStatus>)
        ensures
            final(self).status == old(self).status.after(
                SessionEvent::DeadlineFired,
                old(self).config_id,
            ),
            final(self).config_id == old(self).config_id,
            match failure {
                Some(report) => deadline_fails(old(self).status) && report@ == timeout_failure(
                    port_name@,
                ),
                None => !deadline_fails(old(self).status),
            },
    {
        if self.status != SerialDeviceStatus::Configuring {
            return None;
        }
        self.status = SerialDeviceStatus::Failed;
        let text = "Configuration timed out. Are you sure this is a Meshtastic device?".to_owned();
        Some(ConfigurationStatus { port_name, successful: false, message: Some(text) })
    }

    /// What the decode loop does with the update that one event gave: the
    /// actions to carry out, in order, and the step from `Configured` to
    /// `Connected` where success is announced.
    pub fn plan_event(&mut self, port_name: String, update: DeviceUpdateResult) -> (plan: Vec<
        PipelineAction,
    >)
        ensures
            action_views(plan@) == planned_actions(old(self).status, port_name@, update@),
            final(self).status == after_update(old(self).status, update@),
            final(self).config_id == old(self).config_id,
    {
        let ghost want = planned_actions(self.status, port_name@, update@);
        let mut plan: Vec<PipelineAction> = Vec::new();
        if update.regenerate_graph {
            plan.push(PipelineAction::RegenerateGraph);
        }
        if update.device_updated {
            plan.push(PipelineAction::DispatchDevice);
        }
        if update.regenerate_graph {
            plan.push(PipelineAction::DispatchGraph);
        }
        if update.configuration_success && self.status == SerialDeviceStatus::Configured {
            plan.push(
                PipelineAction::DispatchConfigurationStatus(
                    ConfigurationStatus { port_name, successful: true, message: None },
                ),
            );
            self.status = SerialDeviceStatus::Connected;
        }
        match update.notification_config {
            Some(request) => {
                plan.push(PipelineAction::Notify(request));
            },
            None => {},
        }
        proof {
            assert(action_views(plan@) =~= want);
        }
        plan
    }
}

/// What can go wrong while the tasks of a connection run.
#[derive(Clone, Copy, Debug, PartialEq, Eq, Structural)]
pub enum PipelineError {
    /// The registry holds no session for the connection.
    SessionNotFound,
    /// A call that forwards something to a collaborator failed.
    DispatchFailure,
    /// The deadline passed while the session was still `Configuring`.
    ConnectionTimeout,
}

/// How a task goes on after a failure. None of them ends the decode loop.
#[derive(Clone, Copy, Debug, PartialEq, Eq, Structural)]
pub enum Recovery {
    /// Drop the event at hand and wait for the next.
    SkipEvent,
    /// Go on with what is left to do for the event at hand.
    CarryOn,
    /// Report the failure to the user; the session is dead, and whoever
    /// supervises the connection tears it down.
    ReportAndAbandon,
}

impl PipelineError {
    /// How the task that met this failure goes on.
    pub open spec fn recovery_of(self) -> Recovery {
        match self {
            PipelineError::SessionNotFound => Recovery::SkipEvent,
            PipelineError::DispatchFailure => Recovery::CarryOn,
            PipelineError::ConnectionTimeout => Recovery::ReportAndAbandon,
        }
    }

    /// How the task that met this failure goes on.
    pub fn recovery(&self) -> (r: Recovery)
        ensures
            r == self.recovery_of(),
    {
        match self {
            PipelineError::SessionNotFound => Recovery::SkipEvent,
            PipelineError::DispatchFailure => Recovery::CarryOn,
            PipelineError::ConnectionTimeout => Recovery::ReportAndAbandon,
        }
    }
}

/// The status after the decode loop has dealt with an update.
pub open spec fn after_update(status: SerialDeviceStatus, update: DeviceUpdateView) -> SerialDeviceStatus {
    if announces_success(status, update) {
        SerialDeviceStatus::Connected
    } else {
        status
    }
}

/// Whether the guard reports a failure when it finds this status.
pub open spec fn deadline_fails(status: SerialDeviceStatus) -> bool {
    status == SerialDeviceStatus::Configuring
}

/// A connection never goes back: no event takes a status to an earlier
/// one, and only a connection that is `Connecting` enters `Configuring`.
pub proof fn lemma_status_never_goes_back(status: SerialDeviceStatus, event: SessionEvent, round: u32)
    ensures
        status.after(event, round).rank() >= status.rank(),
        status.after(event, round) == SerialDeviceStatus::Configuring ==> status
            == SerialDeviceStatus::Connecting || status == SerialDeviceStatus::Configuring,
        status == SerialDeviceStatus::Connected || status == SerialDeviceStatus::Failed
            ==> status.after(event, round) == status,
{
}

/// The decode loop never takes a connection back either, and moves it
/// only from `Configured` to `Connected`.
pub proof fn lemma_update_never_goes_back(status: SerialDeviceStatus, update: DeviceUpdateView)
    ensures
        after_update(status, update).rank() >= status.rank(),
        after_update(status, update) != status ==> status == SerialDeviceStatus::Configured
            && after_update(status, update) == SerialDeviceStatus::Connected,
{
}

/// Success first: once the end of the round was seen while `Configuring`,
/// the deadline is stale. The guard reports nothing and changes nothing,
/// whether or not the loop has announced the success yet, and the loop
/// announces it exactly once.
pub proof fn lemma_success_beats_deadline(
    round: u32,
    update: DeviceUpdateView,
    later: DeviceUpdateView,
)
    requires
        update.configuration_success,
    ensures
        ({
            let configured = SerialDeviceStatus::Configuring.after(
                SessionEvent::ConfigurationComplete { config_id: round },
                round,
            );
            let announced = after_update(configured, update);
            &&& configured == SerialDeviceStatus::Configured
            &&& !deadline_fails(configured)
            &&& configured.after(SessionEvent::DeadlineFired, round) == configured
            &&& announces_success(configured, update)
            &&& announced == SerialDeviceStatus::Connected
            &&& !deadline_fails(announced)
            &&& announced.after(SessionEvent::DeadlineFired, round) == announced
            &&& !announces_success(announced, later)
        }),
{
}

/// Deadline first: where the deadline fires while `Configuring`, the guard
/// reports one failure and the connection has `Failed`. Nothing that
/// comes later changes that: a second deadline reports nothing, the end
/// of the round is ignored, and no update makes the loop announce success
/// or move the connection to `Connected`.
pub proof fn lemma_deadline_beats_success(
    round: u32,
    port_name: Seq<char>,
    event: SessionEvent,
    update: DeviceUpdateView,
)
    ensures
        ({
            let failed = SerialDeviceStatus::Configuring.after(SessionEvent::DeadlineFired, round);
            &&& deadline_fails(SerialDeviceStatus::Configuring)
            &&& failed == SerialDeviceStatus::Failed
            &&& !deadline_fails(failed)
            &&& failed.after(event, round) == SerialDeviceStatus::Failed
            &&& !announces_success(failed, update)
            &&& after_update(failed, update) == SerialDeviceStatus::Failed
            &&& forall|i: int|
                0 <= i < planned_actions(failed, port_name, update).len() ==> !(
                #[trigger] planned_actions(
                    failed,
                    port_name,
                    update,
                )[i] is DispatchConfigurationStatus)
        }),
{
}

/// The one step of an event that needs the graph lock comes before every
/// step that calls out: a plan holds `RegenerateGraph` at its head or not
/// at all.
pub proof fn lemma_rebuild_comes_first(
    status: SerialDeviceStatus,
    port_name: Seq<char>,
    update: DeviceUpdateView,
)
    ensures
        forall|i: int|
            0 < i < planned_actions(status, port_name, update).len() ==> !(
            #[trigger] planned_actions(status, port_name, update)[i] is RegenerateGraph),
{
}

} // verus!

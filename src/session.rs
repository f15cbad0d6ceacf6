use crate::address::DeviceAddr;
use crate::error::Failure;
use crate::record::Target;
use crate::speech::{speech_locator, speech_url};
use vstd::prelude::*;

verus! {

/// Where connecting stands: which step's outcome it waits for.
#[derive(PartialEq, Eq, Structural)]
pub enum ConnectPhase {
    /// Opening the control connection.
    Opening,
    /// Addressing the receiver endpoint on it.
    Addressing,
    /// Waiting for the answer to the liveness probe.
    Probing,
}

/// Connecting to a receiver, between two steps.
pub struct Connecting {
    pub addr: DeviceAddr,
    pub phase: ConnectPhase,
}

/// What the caller does next while connecting.
pub enum ConnectStep {
    /// Open a control connection to this address.
    Open { addr: DeviceAddr },
    /// Address this endpoint on the connection.
    Address { destination: String },
    /// Send a liveness probe and wait for its answer.
    Probe,
    /// The connection is ready: a session may be handed out.
    Ready,
    /// Give up with this failure: no session comes of this attempt.
    Abort(Failure),
}

impl Target {
    /// Starts connecting to this receiver: the first step opens a control
    /// connection to its address.
    pub fn connect(&self) -> (r: (Connecting, ConnectStep))
        ensures
            r.0.addr == self.addr,
            r.0.phase == ConnectPhase::Opening,
            r.1 == (ConnectStep::Open { addr: self.addr }),
    {
        (Connecting { addr: self.addr, phase: ConnectPhase::Opening }, ConnectStep::Open { addr: self.addr })
    }
}

impl Connecting {
    /// Takes the outcome of the step last asked for and gives the next one.
    /// Each step needs the one before it to succeed; the first failure aborts
    /// the attempt with that failure, and only a probe that was answered
    /// makes the connection ready.
    pub fn advance(self, outcome: Result<(), rust_cast::errors::Error>) -> (r: (
        Option<Connecting>,
        ConnectStep,
    ))
        ensures
            match outcome {
                Err(e) => r.0 is None && r.1 == ConnectStep::Abort(Failure::Cast(e)),
                Ok(()) => match self.phase {
                    ConnectPhase::Opening => {
                        &&& r.0 == Some(Connecting { addr: self.addr, phase: ConnectPhase::Addressing })
                        &&& r.1 is Address
                        &&& r.1->destination@ == "receiver-0"@
                    },
                    ConnectPhase::Addressing => {
                        &&& r.0 == Some(Connecting { addr: self.addr, phase: ConnectPhase::Probing })
                        &&& r.1 == ConnectStep::Probe
                    },
                    ConnectPhase::Probing => r.0 is None && r.1 == ConnectStep::Ready,
                },
            },
    {
        match outcome {
            Err(e) => (None, ConnectStep::Abort(Failure::Cast(e))),
            Ok(()) => match self.phase {
                ConnectPhase::Opening => (
                    Some(Connecting { addr: self.addr, phase: ConnectPhase::Addressing }),
                    ConnectStep::Address { destination: "receiver-0".to_owned() },
                ),
                ConnectPhase::Addressing => (
                    Some(Connecting { addr: self.addr, phase: ConnectPhase::Probing }),
                    ConnectStep::Probe,
                ),
                ConnectPhase::Probing => (None, ConnectStep::Ready),
            },
        }
    }
}

/// The application a receiver launched: the identifiers that later commands
/// to it need.
pub struct LaunchedApp {
    pub transport_id: String,
    pub session_id: String,
}

/// The media a receiver is told to play: a stream fetched from `content_id`,
/// of type `content_type`, buffered by the receiver before it plays when
/// `buffered` holds. The request has no duration and no metadata to send.
pub struct MediaRequest {
    pub content_id: String,
    pub content_type: String,
    pub buffered: bool,
}

/// What the caller does next while having a receiver speak.
pub enum SpeakStep {
    /// Launch the application with this identifier.
    Launch { app_id: String },
    /// Connect a transport to the launched application.
    Join { transport_id: String },
    /// Have the launched application load and play this media.
    Load { transport_id: String, session_id: String, media: MediaRequest },
    /// The message is playing.
    Spoken,
    /// Give up with this failure; no later step is taken.
    Abort(Failure),
}

/// Waiting for the application to launch.
pub struct Launching {
    pub locator: String,
}

/// Waiting for the transport to the launched application.
pub struct Joining {
    pub locator: String,
    pub app: LaunchedApp,
}

/// Waiting for the media to load.
pub struct Loading;

/// Having a receiver speak, between two steps.
pub enum Speaking {
    Launching(Launching),
    Joining(Joining),
    Loading(Loading),
}

impl Speaking {
    /// Starts having a receiver speak `message` in English: the first step
    /// launches the default media receiver application.
    pub fn start(message: &str) -> (r: (Launching, SpeakStep))
        ensures
            r.0.locator@ == speech_url(message@, "en"@),
            r.1 is Launch,
            r.1->app_id@ == "CC1AD845"@,
    {
        let locator = speech_locator(message, "en");
        Speaking::from_locator(locator)
    }

    /// Starts having a receiver play the speech found at `locator`: the first
    /// step launches the default media receiver application.
    pub fn from_locator(locator: String) -> (r: (Launching, SpeakStep))
        ensures
            r.0 == (Launching { locator }),
            r.1 is Launch,
            r.1->app_id@ == "CC1AD845"@,
    {
        (Launching { locator }, SpeakStep::Launch { app_id: "CC1AD845".to_owned() })
    }
}

impl Launching {
    /// Takes the outcome of the launch: on success the next step connects a
    /// transport to the launched application; a failure aborts.
    pub fn launched(self, outcome: Result<LaunchedApp, rust_cast::errors::Error>) -> (r: (
        Option<Speaking>,
        SpeakStep,
    ))
        ensures
            match outcome {
                Err(e) => r.0 is None && r.1 == SpeakStep::Abort(Failure::Cast(e)),
                Ok(app) => {
                    &&& r.0 == Some(Speaking::Joining(Joining { locator: self.locator, app }))
                    &&& r.1 is Join
                    &&& r.1->Join_transport_id@ == app.transport_id@
                },
            },
    {
        match outcome {
            Err(e) => (None, SpeakStep::Abort(Failure::Cast(e))),
            Ok(app) => {
                let transport_id = app.transport_id.clone();
                (
                    Some(Speaking::Joining(Joining { locator: self.locator, app })),
                    SpeakStep::Join { transport_id },
                )
            },
        }
    }
}

impl Joining {
    /// Takes the outcome of connecting the transport: on success the next
    /// step loads the speech as buffered `audio/mp3`; a failure aborts.
    pub fn joined(self, outcome: Result<(), rust_cast::errors::Error>) -> (r: (
        Option<Speaking>,
        SpeakStep,
    ))
        ensures
            match outcome {
                Err(e) => r.0 is None && r.1 == SpeakStep::Abort(Failure::Cast(e)),
                Ok(()) => {
                    &&& r.0 == Some(Speaking::Loading(Loading))
                    &&& r.1 is Load
                    &&& r.1->Load_transport_id == self.app.transport_id
                    &&& r.1->Load_session_id == self.app.session_id
                    &&& r.1->media.content_id == self.locator
                    &&& r.1->media.content_type@ == "audio/mp3"@
                    &&& r.1->media.buffered
                },
            },
    {
        match outcome {
            Err(e) => (None, SpeakStep::Abort(Failure::Cast(e))),
            Ok(()) => {
                let media = MediaRequest {
                    content_id: self.locator,
                    content_type: "audio/mp3".to_owned(),
                    buffered: true,
                };
                (
                    Some(Speaking::Loading(Loading)),
                    SpeakStep::Load {
                        transport_id: self.app.transport_id,
                        session_id: self.app.session_id,
                        media,
                    },
                )
            },
        }
    }
}

impl Loading {
    /// Takes the outcome of loading the media: on success the message is
    /// playing; a failure aborts.
    pub fn loaded(self, outcome: Result<(), rust_cast::errors::Error>) -> (r: (
        Option<Speaking>,
        SpeakStep,
    ))
        ensures
            r.0 is None,
            match outcome {
                Err(e) => r.1 == SpeakStep::Abort(Failure::Cast(e)),
                Ok(()) => r.1 == SpeakStep::Spoken,
            },
    {
        match outcome {
            Err(e) => (None, SpeakStep::Abort(Failure::Cast(e))),
            Ok(()) => (None, SpeakStep::Spoken),
        }
    }
}

} // verus!

//! The market-data API of CTP: what it is told to do, and in which order.
//!
//! The API object itself lives on the native side. [`MDApi`] keeps what the
//! decisions depend on, and hands out [`ApiCommand`]s for the native side to
//! carry out.

use crate::ctp::market::MarketData;
use crate::ctp::topic::strings_view;
use crate::text::{
    is_nul_free, law_nul_is_character_zero, law_signed_decimal_is_a_numeral, nul_free,
    signed_decimal, signed_decimal_view,
};
use vstd::prelude::*;
use vstd::string::*;
use vstd::utf8::*;

verus! {

/// The timeout that each wait for an event of the start-up is given.
pub const RECV_TIMEOUT: u64 = 5;

/// The number that the login request carries.
pub const LOGIN_REQUEST_ID: i32 = 1;

/// How the API is set up.
#[derive(PartialEq, Eq, Debug)]
pub struct ApiConfig {
    pub flow_path: String,
    pub is_udp: bool,
    pub is_multicast: bool,
    pub front_addr: Vec<String>,
}

/// What a configuration says.
pub struct ApiConfigView {
    pub flow_path: Seq<char>,
    pub is_udp: bool,
    pub is_multicast: bool,
    pub front_addr: Seq<Seq<char>>,
}

impl View for ApiConfig {
    type V = ApiConfigView;

    open spec fn view(&self) -> ApiConfigView {
        ApiConfigView {
            flow_path: self.flow_path@,
            is_udp: self.is_udp,
            is_multicast: self.is_multicast,
            front_addr: strings_view(self.front_addr@),
        }
    }
}

impl ApiConfigView {
    /// No flow path, no front, TCP unicast.
    pub open spec fn blank() -> ApiConfigView {
        ApiConfigView {
            flow_path: Seq::empty(),
            is_udp: false,
            is_multicast: false,
            front_addr: Seq::empty(),
        }
    }
}

impl Clone for ApiConfig {
    fn clone(&self) -> (config: Self)
        ensures
            config@ == self@,
    {
        let config = ApiConfig {
            flow_path: self.flow_path.clone(),
            is_udp: self.is_udp,
            is_multicast: self.is_multicast,
            front_addr: self.front_addr.clone(),
        };
        assert(config@.front_addr =~= self@.front_addr);
        config
    }
}

impl Default for ApiConfig {
    fn default() -> (config: Self)
        ensures
            config@ == ApiConfigView::blank(),
    {
        let config = ApiConfig {
            flow_path: String::new(),
            is_udp: false,
            is_multicast: false,
            front_addr: Vec::new(),
        };
        assert(strings_view(config.front_addr@) =~= Seq::empty());
        config
    }
}

/// The login form, in the fixed-size buffers of the native interface.
#[derive(PartialEq, Debug)]
pub struct UserLoginField {
    pub trading_day: [i8; 9],
    pub broker_id: [i8; 11],
    pub user_id: [i8; 16],
    pub password: [i8; 41],
    pub user_product_info: [i8; 11],
    pub interface_product_info: [i8; 11],
    pub protocol_info: [i8; 11],
    pub mac_address: [i8; 21],
    pub one_time_password: [i8; 41],
    pub reserve1: [i8; 16],
    pub login_remark: [i8; 36],
    pub client_ip_port: i32,
    pub client_ip_address: [i8; 33],
}

/// What a login form says.
pub struct UserLoginFieldView {
    pub trading_day: Seq<i8>,
    pub broker_id: Seq<i8>,
    pub user_id: Seq<i8>,
    pub password: Seq<i8>,
    pub user_product_info: Seq<i8>,
    pub interface_product_info: Seq<i8>,
    pub protocol_info: Seq<i8>,
    pub mac_address: Seq<i8>,
    pub one_time_password: Seq<i8>,
    pub reserve1: Seq<i8>,
    pub login_remark: Seq<i8>,
    pub client_ip_port: i32,
    pub client_ip_address: Seq<i8>,
}

impl View for UserLoginField {
    type V = UserLoginFieldView;

    open spec fn view(&self) -> UserLoginFieldView {
        UserLoginFieldView {
            trading_day: self.trading_day@,
            broker_id: self.broker_id@,
            user_id: self.user_id@,
            password: self.password@,
            user_product_info: self.user_product_info@,
            interface_product_info: self.interface_product_info@,
            protocol_info: self.protocol_info@,
            mac_address: self.mac_address@,
            one_time_password: self.one_time_password@,
            reserve1: self.reserve1@,
            login_remark: self.login_remark@,
            client_ip_port: self.client_ip_port,
            client_ip_address: self.client_ip_address@,
        }
    }
}

/// A buffer of `n` zero bytes.
pub open spec fn zeros(n: nat) -> Seq<i8> {
    Seq::new(n, |i: int| 0i8)
}

impl UserLoginFieldView {
    /// The form of an anonymous login: nothing is filled in.
    pub open spec fn blank() -> UserLoginFieldView {
        UserLoginFieldView {
            trading_day: zeros(9),
            broker_id: zeros(11),
            user_id: zeros(16),
            password: zeros(41),
            user_product_info: zeros(11),
            interface_product_info: zeros(11),
            protocol_info: zeros(11),
            mac_address: zeros(21),
            one_time_password: zeros(41),
            reserve1: zeros(16),
            login_remark: zeros(36),
            client_ip_port: 0,
            client_ip_address: zeros(33),
        }
    }
}

/// A call into the native API.
#[derive(PartialEq, Debug)]
pub enum ApiCommand {
    /// Create the API object.
    Create { flow_path: String, is_udp: bool, is_multicast: bool },
    /// Free the callback object that was registered last.
    DropSpi,
    /// Make a callback object and register it.
    RegisterSpi,
    /// Register the address of a front.
    RegisterFront(String),
    /// Start to connect.
    Init,
    /// Request a login.
    UserLogin { field: UserLoginField, request_id: i32 },
    /// Subscribe to instruments. `count` is what the native side is told of their
    /// number.
    Subscribe { codes: Vec<String>, count: i32 },
    /// Drop the subscription to instruments.
    Unsubscribe { codes: Vec<String>, count: i32 },
    /// Destroy the API object.
    Destruct,
}

/// What a command says.
pub enum CommandView {
    Create { flow_path: Seq<char>, is_udp: bool, is_multicast: bool },
    DropSpi,
    RegisterSpi,
    RegisterFront(Seq<char>),
    Init,
    UserLogin { field: UserLoginFieldView, request_id: i32 },
    Subscribe { codes: Seq<Seq<char>>, count: i32 },
    Unsubscribe { codes: Seq<Seq<char>>, count: i32 },
    Destruct,
}

impl View for ApiCommand {
    type V = CommandView;

    open spec fn view(&self) -> CommandView {
        match self {
            ApiCommand::Create { flow_path, is_udp, is_multicast } => CommandView::Create {
                flow_path: flow_path@,
                is_udp: *is_udp,
                is_multicast: *is_multicast,
            },
            ApiCommand::DropSpi => CommandView::DropSpi,
            ApiCommand::RegisterSpi => CommandView::RegisterSpi,
            ApiCommand::RegisterFront(addr) => CommandView::RegisterFront(addr@),
            ApiCommand::Init => CommandView::Init,
            ApiCommand::UserLogin { field, request_id } => CommandView::UserLogin {
                field: field@,
                request_id: *request_id,
            },
            ApiCommand::Subscribe { codes, count } => CommandView::Subscribe {
                codes: strings_view(codes@),
                count: *count,
            },
            ApiCommand::Unsubscribe { codes, count } => CommandView::Unsubscribe {
                codes: strings_view(codes@),
                count: *count,
            },
            ApiCommand::Destruct => CommandView::Destruct,
        }
    }
}

/// What a list of commands says.
pub open spec fn commands_view(commands: Seq<ApiCommand>) -> Seq<CommandView> {
    commands.map_values(|c: ApiCommand| c@)
}

/// The commands that register a callback object, where `had_spi` says whether one
/// is registered already.
pub open spec fn register_commands(had_spi: bool) -> Seq<CommandView> {
    if had_spi {
        seq![CommandView::DropSpi, CommandView::RegisterSpi]
    } else {
        seq![CommandView::RegisterSpi]
    }
}

/// The commands that register the fronts, in the order of their addresses.
pub open spec fn front_commands(front_addr: Seq<Seq<char>>) -> Seq<CommandView> {
    front_addr.map_values(|addr: Seq<char>| CommandView::RegisterFront(addr))
}

/// The commands that begin a start-up.
pub open spec fn init_commands(had_spi: bool, front_addr: Seq<Seq<char>>) -> Seq<CommandView> {
    register_commands(had_spi) + front_commands(front_addr) + seq![CommandView::Init]
}

/// The commands that release an API.
pub open spec fn release_commands(had_spi: bool) -> Seq<CommandView> {
    if had_spi {
        seq![CommandView::Destruct, CommandView::DropSpi]
    } else {
        seq![CommandView::Destruct]
    }
}

/// Whether every string can be handed to the native side.
pub open spec fn all_nul_free(strings: Seq<Seq<char>>) -> bool {
    forall|i: int| 0 <= i < strings.len() ==> nul_free(#[trigger] strings[i])
}

/// How far an API has been started.
#[derive(Clone, Copy, PartialEq, Eq, Structural, Debug)]
pub enum Phase {
    /// Not started.
    Created,
    /// Waiting for the front to accept the connection.
    Connecting,
    /// Waiting for the front to accept the login.
    LoggingIn,
    /// Started.
    Ready,
    /// The start-up was given up.
    Failed,
    /// Released: the native object is gone.
    Released,
}

/// What one wait for an event came to.
#[derive(PartialEq, Eq, Debug)]
pub enum Wait {
    /// The event has not come: wait again.
    Again,
    /// The event has come.
    Done,
    /// The channel failed.
    Failed(String),
}

/// What one wait came to, in words.
pub enum WaitView {
    Again,
    Done,
    Failed(Seq<char>),
}

impl View for Wait {
    type V = WaitView;

    open spec fn view(&self) -> WaitView {
        match self {
            Wait::Again => WaitView::Again,
            Wait::Done => WaitView::Done,
            Wait::Failed(message) => WaitView::Failed(message@),
        }
    }
}

/// What a wait comes to: a failed channel ends it, else the awaited event does.
pub open spec fn wait_outcome(
    came: bool,
    outcome: Result<(), String>,
    complaint: Seq<char>,
) -> WaitView {
    match outcome {
        Err(reason) => WaitView::Failed(complaint + reason@),
        Ok(_) => if came {
            WaitView::Done
        } else {
            WaitView::Again
        },
    }
}

/// Whether the events report a connection.
pub open spec fn reports_connected<N>(delivered: Seq<MarketData<N>>) -> bool {
    exists|i: int| 0 <= i < delivered.len() && delivered[i] is Connected
}

/// Whether the events report a login.
pub open spec fn reports_login<N>(delivered: Seq<MarketData<N>>) -> bool {
    exists|i: int| 0 <= i < delivered.len() && delivered[i] is UserLogin
}

/// How a start-up goes on.
#[derive(PartialEq, Debug)]
pub enum StartStep {
    /// Wait for events.
    Receive,
    /// Carry the command out, then wait for events.
    Login(ApiCommand),
    /// The API is started.
    Ready,
    /// The start-up failed.
    Failed(String),
}

/// How a start-up goes on, in words.
pub enum StepView {
    Receive,
    Login(CommandView),
    Ready,
    Failed(Seq<char>),
}

impl View for StartStep {
    type V = StepView;

    open spec fn view(&self) -> StepView {
        match self {
            StartStep::Receive => StepView::Receive,
            StartStep::Login(command) => StepView::Login(command@),
            StartStep::Ready => StepView::Ready,
            StartStep::Failed(message) => StepView::Failed(message@),
        }
    }
}

/// The state of an API.
pub struct ApiView {
    pub config: ApiConfigView,
    pub spi: bool,
    pub phase: Phase,
}

/// The login request.
pub open spec fn login_command() -> CommandView {
    CommandView::UserLogin { field: UserLoginFieldView::blank(), request_id: LOGIN_REQUEST_ID }
}

/// A call that registers a callback object, alone or in the course of a start-up.
pub enum ApiCall {
    Register,
    ReqInit,
    Start,
}

impl ApiView {
    /// The commands that a call hands out.
    pub open spec fn commands_of(self, call: ApiCall) -> Seq<CommandView> {
        match call {
            ApiCall::Register => register_commands(self.spi),
            ApiCall::ReqInit => init_commands(self.spi, self.config.front_addr),
            ApiCall::Start => init_commands(self.spi, self.config.front_addr),
        }
    }

    /// The state after a call.
    pub open spec fn after_call(self, call: ApiCall) -> ApiView {
        match call {
            ApiCall::Register => ApiView { spi: true, ..self },
            ApiCall::ReqInit => ApiView { spi: true, ..self },
            ApiCall::Start => ApiView { spi: true, phase: Phase::Connecting, ..self },
        }
    }

    /// The phase and the step that follow a wait, by the phase it was made in.
    pub open spec fn after_wait<N>(
        self,
        delivered: Seq<MarketData<N>>,
        outcome: Result<(), String>,
    ) -> (Phase, StepView) {
        if self.phase == Phase::Connecting {
            match wait_outcome(
                reports_connected(delivered),
                outcome,
                "Error happened when connecting to market server: "@,
            ) {
                WaitView::Again => (Phase::Connecting, StepView::Receive),
                WaitView::Done => (Phase::LoggingIn, StepView::Login(login_command())),
                WaitView::Failed(message) => (Phase::Failed, StepView::Failed(message)),
            }
        } else {
            match wait_outcome(
                reports_login(delivered),
                outcome,
                "Error happened when logining to market server: "@,
            ) {
                WaitView::Again => (Phase::LoggingIn, StepView::Receive),
                WaitView::Done => (Phase::Ready, StepView::Ready),
                WaitView::Failed(message) => (Phase::Failed, StepView::Failed(message)),
            }
        }
    }
}

/// What `String::from_utf8_lossy` makes of a byte string.
pub uninterp spec fn lossy_utf8(bytes: Seq<u8>) -> Seq<char>;

/// Calls `String::from_utf8_lossy`. Believed of it: the text is a function of the
/// bytes alone, and valid UTF-8 is decoded as it stands. Nothing is said of which
/// replacement characters stand for which invalid bytes.
#[verifier::external_body]
fn decode_lossy(bytes: &[u8]) -> (text: String)
    ensures
        text@ == lossy_utf8(bytes@),
        valid_utf8(bytes@) ==> text@ == decode_utf8(bytes@),
{
    String::from_utf8_lossy(bytes).into_owned()
}

/// The market-data API, as far as the decisions go.
#[derive(PartialEq, Eq, Debug)]
pub struct MDApi {
    spi: bool,
    config: ApiConfig,
    phase: Phase,
}

impl View for MDApi {
    type V = ApiView;

    closed spec fn view(&self) -> ApiView {
        ApiView { config: self.config@, spi: self.spi, phase: self.phase }
    }
}

impl MDApi {
    /// The version that the native library reports, as text. `version` is what
    /// the library points to, without the NUL at its end.
    pub fn get_version(version: &[u8]) -> (text: String)
        ensures
            text@ == lossy_utf8(version@),
            valid_utf8(version@) ==> text@ == decode_utf8(version@),
    {
        decode_lossy(version)
    }

    /// An API that is yet to be started.
    pub fn new(config: ApiConfig) -> (api: Self)
        requires
            nul_free(config@.flow_path),
        ensures
            api@ == (ApiView { config: config@, spi: false, phase: Phase::Created }),
    {
        MDApi { spi: false, config, phase: Phase::Created }
    }

    /// The command that creates the native object.
    pub fn create_command(&self) -> (command: ApiCommand)
        requires
            self@.phase == Phase::Created,
        ensures
            command@ == (CommandView::Create {
                flow_path: self@.config.flow_path,
                is_udp: self@.config.is_udp,
                is_multicast: self@.config.is_multicast,
            }),
    {
        ApiCommand::Create {
            flow_path: self.config.flow_path.clone(),
            is_udp: self.config.is_udp,
            is_multicast: self.config.is_multicast,
        }
    }

    /// How far the API has been started.
    pub fn phase(&self) -> (phase: Phase)
        ensures
            phase == self@.phase,
    {
        self.phase
    }

    /// Whether every front address can be handed to the native side, as a
    /// start-up demands.
    pub fn fronts_are_nul_free(&self) -> (free: bool)
        ensures
            free == all_nul_free(self@.config.front_addr),
    {
        let ghost fronts = self@.config.front_addr;
        let mut i: usize = 0;
        while i < self.config.front_addr.len()
            invariant
                i <= fronts.len(),
                fronts == strings_view(self.config.front_addr@),
                forall|j: int| 0 <= j < i ==> nul_free(#[trigger] fronts[j]),
            decreases fronts.len() - i,
        {
            if !is_nul_free(self.config.front_addr[i].as_str()) {
                assert(!nul_free(fronts[i as int]));
                return false;
            }
            i = i + 1;
        }
        true
    }

    /// Registers a new callback object, and frees the one that it replaces.
    pub fn register(&mut self) -> (commands: Vec<ApiCommand>)
        requires
            old(self)@.phase != Phase::Released,
        ensures
            commands_view(commands@) == old(self)@.commands_of(ApiCall::Register),
            final(self)@ == old(self)@.after_call(ApiCall::Register),
    {
        let mut commands: Vec<ApiCommand> = Vec::new();
        if self.spi {
            commands.push(ApiCommand::DropSpi);
        }
        commands.push(ApiCommand::RegisterSpi);
        self.spi = true;
        assert(commands_view(commands@) =~= register_commands(old(self)@.spi));
        commands
    }

    /// Registers the callbacks and the fronts, and starts to connect.
    pub fn req_init(&mut self) -> (commands: Vec<ApiCommand>)
        requires
            old(self)@.phase != Phase::Released,
            all_nul_free(old(self)@.config.front_addr),
        ensures
            commands_view(commands@) == old(self)@.commands_of(ApiCall::ReqInit),
            final(self)@ == old(self)@.after_call(ApiCall::ReqInit),
    {
        let ghost fronts = self@.config.front_addr;
        let ghost had_spi = self@.spi;
        let mut commands = self.register();
        let mut i: usize = 0;
        assert(front_commands(fronts.take(0)) =~= Seq::empty());
        assert(commands_view(commands@) =~= register_commands(had_spi) + front_commands(
            fronts.take(0),
        ));
        while i < self.config.front_addr.len()
            invariant
                i <= fronts.len(),
                fronts == strings_view(self.config.front_addr@),
                self@ == (ApiView { spi: true, ..old(self)@ }),
                commands_view(commands@) == register_commands(had_spi) + front_commands(
                    fronts.take(i as int),
                ),
            decreases fronts.len() - i,
        {
            let ghost before = commands@;
            commands.push(ApiCommand::RegisterFront(self.config.front_addr[i].clone()));
            i = i + 1;
            proof {
                let front = CommandView::RegisterFront(fronts[i - 1]);
                assert(fronts.take(i as int) =~= fronts.take(i - 1).push(fronts[i - 1]));
                assert(commands_view(commands@) =~= commands_view(before).push(front));
                assert(front_commands(fronts.take(i as int)) =~= front_commands(
                    fronts.take(i - 1),
                ).push(front));
            }
        }
        assert(fronts.take(fronts.len() as int) =~= fronts);
        let ghost before = commands@;
        commands.push(ApiCommand::Init);
        assert(commands_view(commands@) =~= commands_view(before).push(CommandView::Init));
        assert(commands_view(commands@) =~= init_commands(had_spi, fronts));
        commands
    }

    /// The login request: an anonymous one.
    pub fn req_user_login() -> (command: ApiCommand)
        ensures
            command@ == login_command(),
    {
        let field = UserLoginField {
            trading_day: [0i8; 9],
            broker_id: [0i8; 11],
            user_id: [0i8; 16],
            password: [0i8; 41],
            user_product_info: [0i8; 11],
            interface_product_info: [0i8; 11],
            protocol_info: [0i8; 11],
            mac_address: [0i8; 21],
            one_time_password: [0i8; 41],
            reserve1: [0i8; 16],
            login_remark: [0i8; 36],
            client_ip_port: 0,
            client_ip_address: [0i8; 33],
        };
        proof {
            let blank = UserLoginFieldView::blank();
            assert(field@.trading_day =~= blank.trading_day);
            assert(field@.broker_id =~= blank.broker_id);
            assert(field@.user_id =~= blank.user_id);
            assert(field@.password =~= blank.password);
            assert(field@.user_product_info =~= blank.user_product_info);
            assert(field@.interface_product_info =~= blank.interface_product_info);
            assert(field@.protocol_info =~= blank.protocol_info);
            assert(field@.mac_address =~= blank.mac_address);
            assert(field@.one_time_password =~= blank.one_time_password);
            assert(field@.reserve1 =~= blank.reserve1);
            assert(field@.login_remark =~= blank.login_remark);
            assert(field@.client_ip_address =~= blank.client_ip_address);
        }
        ApiCommand::UserLogin { field, request_id: LOGIN_REQUEST_ID }
    }

    /// Judges one wait for the connection: `delivered` are the events that came
    /// during the wait, `outcome` is how the wait ended, with the reason in words
    /// where it failed.
    pub fn check_connected<N>(
        delivered: &[MarketData<N>],
        outcome: Result<(), String>,
    ) -> (wait: Wait)
        ensures
            wait@ == wait_outcome(
                reports_connected(delivered@),
                outcome,
                "Error happened when connecting to market server: "@,
            ),
    {
        let mut came = false;
        let mut i: usize = 0;
        while i < delivered.len()
            invariant
                i <= delivered@.len(),
                came == exists|j: int| 0 <= j < i && delivered@[j] is Connected,
            decreases delivered@.len() - i,
        {
            match &delivered[i] {
                MarketData::Connected => {
                    came = true;
                },
                _ => {},
            }
            i = i + 1;
            assert(delivered@[i - 1] is Connected ==> came);
        }
        match outcome {
            Err(reason) => Wait::Failed(
                "Error happened when connecting to market server: ".to_string().concat(
                    reason.as_str(),
                ),
            ),
            Ok(_) => if came {
                Wait::Done
            } else {
                Wait::Again
            },
        }
    }

    /// Judges one wait for the login, as [`MDApi::check_connected`] does for the
    /// connection.
    pub fn check_logined<N>(
        delivered: &[MarketData<N>],
        outcome: Result<(), String>,
    ) -> (wait: Wait)
        ensures
            wait@ == wait_outcome(
                reports_login(delivered@),
                outcome,
                "Error happened when logining to market server: "@,
            ),
    {
        let mut came = false;
        let mut i: usize = 0;
        while i < delivered.len()
            invariant
                i <= delivered@.len(),
                came == exists|j: int| 0 <= j < i && delivered@[j] is UserLogin,
            decreases delivered@.len() - i,
        {
            match &delivered[i] {
                MarketData::UserLogin => {
                    came = true;
                },
                _ => {},
            }
            i = i + 1;
            assert(delivered@[i - 1] is UserLogin ==> came);
        }
        match outcome {
            Err(reason) => Wait::Failed(
                "Error happened when logining to market server: ".to_string().concat(
                    reason.as_str(),
                ),
            ),
            Ok(_) => if came {
                Wait::Done
            } else {
                Wait::Again
            },
        }
    }

    /// Begins a start-up. Once the commands are carried out, wait for events and
    /// hand each wait to [`MDApi::received`].
    pub fn start(&mut self) -> (commands: Vec<ApiCommand>)
        requires
            old(self)@.phase != Phase::Released,
            all_nul_free(old(self)@.config.front_addr),
        ensures
            commands_view(commands@) == old(self)@.commands_of(ApiCall::Start),
            final(self)@ == old(self)@.after_call(ApiCall::Start),
    {
        let commands = self.req_init();
        self.phase = Phase::Connecting;
        commands
    }

    /// Takes one wait of the start-up, and says how the start-up goes on.
    pub fn received<N>(
        &mut self,
        delivered: &[MarketData<N>],
        outcome: Result<(), String>,
    ) -> (step: StartStep)
        requires
            old(self)@.phase == Phase::Connecting || old(self)@.phase == Phase::LoggingIn,
        ensures
            step@ == old(self)@.after_wait(delivered@, outcome).1,
            final(self)@ == (ApiView {
                phase: old(self)@.after_wait(delivered@, outcome).0,
                ..old(self)@
            }),
    {
        if self.phase == Phase::Connecting {
            match MDApi::check_connected(delivered, outcome) {
                Wait::Again => StartStep::Receive,
                Wait::Done => {
                    self.phase = Phase::LoggingIn;
                    StartStep::Login(MDApi::req_user_login())
                },
                Wait::Failed(message) => {
                    self.phase = Phase::Failed;
                    StartStep::Failed(message)
                },
            }
        } else {
            match MDApi::check_logined(delivered, outcome) {
                Wait::Again => StartStep::Receive,
                Wait::Done => {
                    self.phase = Phase::Ready;
                    StartStep::Ready
                },
                Wait::Failed(message) => {
                    self.phase = Phase::Failed;
                    StartStep::Failed(message)
                },
            }
        }
    }

    /// The command that subscribes to instruments, or drops their subscription.
    /// The native side counts in 32 bits; a longer list is counted modulo 2^32.
    pub fn subscribe_market_data(&self, codes: &[&str], is_unsub: bool) -> (command: ApiCommand)
        requires
            self@.phase != Phase::Released,
            all_nul_free(codes@.map_values(|c: &str| c@)),
        ensures
            command@ == if is_unsub {
                CommandView::Unsubscribe {
                    codes: codes@.map_values(|c: &str| c@),
                    count: codes.len() as i32,
                }
            } else {
                CommandView::Subscribe {
                    codes: codes@.map_values(|c: &str| c@),
                    count: codes.len() as i32,
                }
            },
            codes@.len() <= i32::MAX ==> codes.len() as i32 == codes@.len(),
    {
        let mut owned: Vec<String> = Vec::new();
        let mut i: usize = 0;
        while i < codes.len()
            invariant
                i <= codes@.len(),
                strings_view(owned@) == codes@.take(i as int).map_values(|c: &str| c@),
            decreases codes@.len() - i,
        {
            let ghost before = owned@;
            owned.push(codes[i].to_string());
            i = i + 1;
            proof {
                let view = |c: &str| c@;
                assert(codes@.take(i as int) =~= codes@.take(i - 1).push(codes@[i - 1]));
                assert(strings_view(owned@) =~= strings_view(before).push(codes@[i - 1]@));
                assert(codes@.take(i as int).map_values(view) =~= codes@.take(i - 1).map_values(
                    view,
                ).push(codes@[i - 1]@));
            }
        }
        assert(codes@.take(codes@.len() as int) =~= codes@);
        let count: i32 = #[verifier::truncate] (codes.len() as i32);
        if is_unsub {
            ApiCommand::Unsubscribe { codes: owned, count }
        } else {
            ApiCommand::Subscribe { codes: owned, count }
        }
    }

    /// Judges what the native side answered to a subscription command.
    pub fn subscribe_reply(rtn: i32) -> (result: Result<(), String>)
        ensures
            rtn == 0 <==> result is Ok,
            result matches Err(message) ==> message@
                == "Fail to req `md_api_subscribe_market_data`: "@ + signed_decimal_view(rtn as int),
    {
        if rtn != 0 {
            return Err(
                "Fail to req `md_api_subscribe_market_data`: ".to_string().concat(
                    signed_decimal(rtn).as_str(),
                ),
            );
        }
        Ok(())
    }

    /// Releases the API: the native object, then its callback object. Nothing can
    /// be asked of it afterwards.
    pub fn release(&mut self) -> (commands: Vec<ApiCommand>)
        requires
            old(self)@.phase != Phase::Released,
        ensures
            commands_view(commands@) == release_commands(old(self)@.spi),
            final(self)@ == (ApiView { spi: false, phase: Phase::Released, ..old(self)@ }),
    {
        let mut commands: Vec<ApiCommand> = Vec::new();
        commands.push(ApiCommand::Destruct);
        if self.spi {
            commands.push(ApiCommand::DropSpi);
            self.spi = false;
        }
        self.phase = Phase::Released;
        assert(commands_view(commands@) =~= release_commands(old(self)@.spi));
        commands
    }
}

/// One wait of a start-up: the events that came, and how it ended.
pub struct WaitRecord<N> {
    pub delivered: Seq<MarketData<N>>,
    pub outcome: Result<(), String>,
}

/// Whether a start-up in this phase still waits for events.
pub open spec fn is_waiting(phase: Phase) -> bool {
    phase == Phase::Connecting || phase == Phase::LoggingIn
}

/// The state after a run of waits. Once a start-up is over, nothing more is
/// waited for.
pub open spec fn after_waits<N>(api: ApiView, waits: Seq<WaitRecord<N>>) -> ApiView
    decreases waits.len(),
{
    if waits.len() == 0 {
        api
    } else {
        let before = after_waits(api, waits.drop_last());
        if is_waiting(before.phase) {
            ApiView {
                phase: before.after_wait(waits.last().delivered, waits.last().outcome).0,
                ..before
            }
        } else {
            before
        }
    }
}

/// The number of login requests that a run of waits makes.
pub open spec fn logins<N>(api: ApiView, waits: Seq<WaitRecord<N>>) -> nat
    decreases waits.len(),
{
    if waits.len() == 0 {
        0
    } else {
        let before = after_waits(api, waits.drop_last());
        let step = before.after_wait(waits.last().delivered, waits.last().outcome).1;
        logins(api, waits.drop_last()) + if is_waiting(before.phase) && step is Login {
            1nat
        } else {
            0nat
        }
    }
}

/// Whether wait `i` reports the connection and the later wait `j` the login, and
/// no wait up to then fails.
pub open spec fn comes_up<N>(waits: Seq<WaitRecord<N>>, i: int, j: int) -> bool {
    &&& 0 <= i < j < waits.len()
    &&& reports_connected(waits[i].delivered)
    &&& reports_login(waits[j].delivered)
    &&& forall|k: int| 0 <= k <= j ==> (#[trigger] waits[k]).outcome is Ok
}

/// Whether no wait fails.
pub open spec fn all_succeed<N>(waits: Seq<WaitRecord<N>>) -> bool {
    forall|k: int| 0 <= k < waits.len() ==> (#[trigger] waits[k]).outcome is Ok
}

/// A start-up becomes ready exactly by a wait that reports the connection and a
/// later one that reports the login, with no failed wait up to then. A login that
/// is reported before the connection does not count.
pub proof fn law_ready_takes_a_connection_and_then_a_login<N>(
    api: ApiView,
    waits: Seq<WaitRecord<N>>,
)
    requires
        api.phase == Phase::Connecting,
    ensures
        after_waits(api, waits).phase == Phase::Ready <==> exists|i: int, j: int| #[trigger]
            comes_up(waits, i, j),
    decreases waits.len(),
{
    if waits.len() > 0 {
        let rest = waits.drop_last();
        let last = waits.len() - 1;
        let before = after_waits(api, rest);
        law_ready_takes_a_connection_and_then_a_login(api, rest);
        lemma_waiting(api, rest);
        if before.phase == Phase::Ready {
            let (i, j) = choose|i: int, j: int| #[trigger] comes_up(rest, i, j);
            assert forall|k: int| 0 <= k <= j implies (#[trigger] waits[k]).outcome is Ok by {
                assert(rest[k].outcome is Ok);
            }
            assert(comes_up(waits, i, j));
        } else if after_waits(api, waits).phase == Phase::Ready {
            let i = choose|i: int|
                0 <= i < rest.len() && reports_connected(#[trigger] rest[i].delivered);
            assert forall|k: int| 0 <= k <= last implies (#[trigger] waits[k]).outcome is Ok by {
                if k < last {
                    assert(rest[k].outcome is Ok);
                }
            }
            assert(waits[i].delivered == rest[i].delivered);
            assert(comes_up(waits, i, last));
        }
        if exists|i: int, j: int| #[trigger] comes_up(waits, i, j) {
            let (i, j) = choose|i: int, j: int| #[trigger] comes_up(waits, i, j);
            assert(rest[i].delivered == waits[i].delivered);
            if j < last {
                assert forall|k: int| 0 <= k <= j implies (#[trigger] rest[k]).outcome is Ok by {
                    assert(waits[k].outcome is Ok);
                }
                assert(comes_up(rest, i, j));
            } else {
                assert forall|k: int| 0 <= k < rest.len() implies (
                #[trigger] rest[k]).outcome is Ok by {
                    assert(waits[k].outcome is Ok);
                }
                assert(waits[last].outcome is Ok);
                assert(reports_connected(rest[i].delivered));
            }
        }
    }
}

/// While a start-up waits, no wait has failed; and it waits for the login exactly
/// once the connection was reported.
proof fn lemma_waiting<N>(api: ApiView, waits: Seq<WaitRecord<N>>)
    requires
        api.phase == Phase::Connecting,
    ensures
        is_waiting(after_waits(api, waits).phase) ==> all_succeed(waits),
        all_succeed(waits) ==> is_waiting(after_waits(api, waits).phase) || after_waits(
            api,
            waits,
        ).phase == Phase::Ready,
        after_waits(api, waits).phase == Phase::LoggingIn ==> exists|i: int|
            0 <= i < waits.len() && reports_connected(#[trigger] waits[i].delivered),
        after_waits(api, waits).phase == Phase::Connecting ==> forall|i: int|
            0 <= i < waits.len() ==> !reports_connected(#[trigger] waits[i].delivered),
    decreases waits.len(),
{
    if waits.len() > 0 {
        let rest = waits.drop_last();
        let last = waits.len() - 1;
        let before = after_waits(api, rest);
        let after = after_waits(api, waits);
        lemma_waiting(api, rest);
        assert(forall|k: int| 0 <= k < last ==> waits[k] == rest[k]);
        if is_waiting(after.phase) {
            assert forall|k: int| 0 <= k < waits.len() implies (
            #[trigger] waits[k]).outcome is Ok by {
                if k < last {
                    assert(rest[k].outcome is Ok);
                }
            }
        }
        if all_succeed(waits) {
            assert forall|k: int| 0 <= k < rest.len() implies (
            #[trigger] rest[k]).outcome is Ok by {
                assert(waits[k].outcome is Ok);
            }
            assert(waits[last].outcome is Ok);
        }
        if after.phase == Phase::LoggingIn {
            if before.phase == Phase::Connecting {
                assert(reports_connected(waits[last].delivered));
            } else {
                let i = choose|i: int|
                    0 <= i < rest.len() && reports_connected(#[trigger] rest[i].delivered);
                assert(reports_connected(waits[i].delivered));
            }
        }
        if after.phase == Phase::Connecting {
            assert forall|i: int| 0 <= i < waits.len() implies !reports_connected(
                #[trigger] waits[i].delivered,
            ) by {
                if i < last {
                    assert(!reports_connected(rest[i].delivered));
                }
            }
        }
    }
}

/// A start-up requests the login once it is connected, and once only: never while
/// it is connecting, and exactly once by the time it is ready.
pub proof fn law_login_is_requested_once<N>(api: ApiView, waits: Seq<WaitRecord<N>>)
    requires
        api.phase == Phase::Connecting,
    ensures
        logins(api, waits) <= 1,
        after_waits(api, waits).phase == Phase::Connecting ==> logins(api, waits) == 0,
        after_waits(api, waits).phase == Phase::LoggingIn ==> logins(api, waits) == 1,
        after_waits(api, waits).phase == Phase::Ready ==> logins(api, waits) == 1,
        after_waits(api, waits).phase != Phase::Created,
    decreases waits.len(),
{
    if waits.len() > 0 {
        law_login_is_requested_once(api, waits.drop_last());
    }
}

/// Whether wait `i` reports the connection, and no wait up to then fails.
pub open spec fn connects<N>(waits: Seq<WaitRecord<N>>, i: int) -> bool {
    &&& 0 <= i < waits.len()
    &&& reports_connected(waits[i].delivered)
    &&& forall|k: int| 0 <= k <= i ==> (#[trigger] waits[k]).outcome is Ok
}

/// Ready or not, a start-up has requested the login exactly where a wait reported
/// the connection before any wait failed.
pub proof fn law_login_is_requested_by_the_connection<N>(api: ApiView, waits: Seq<WaitRecord<N>>)
    requires
        api.phase == Phase::Connecting,
    ensures
        logins(api, waits) == 1 <==> exists|i: int| #[trigger] connects(waits, i),
    decreases waits.len(),
{
    if waits.len() > 0 {
        let rest = waits.drop_last();
        let last = waits.len() - 1;
        let before = after_waits(api, rest);
        law_login_is_requested_by_the_connection(api, rest);
        law_login_is_requested_once(api, rest);
        lemma_waiting(api, rest);
        assert(forall|k: int| 0 <= k < last ==> waits[k] == rest[k]);
        assert forall|i: int| 0 <= i < last implies #[trigger] connects(waits, i) == connects(
            rest,
            i,
        ) by {
            if connects(waits, i) {
                assert forall|k: int| 0 <= k <= i implies (#[trigger] rest[k]).outcome is Ok by {
                    assert(waits[k].outcome is Ok);
                }
            }
            if connects(rest, i) {
                assert forall|k: int| 0 <= k <= i implies (#[trigger] waits[k]).outcome is Ok by {
                    assert(rest[k].outcome is Ok);
                }
            }
        }
        if logins(api, rest) == 1 {
            let i = choose|i: int| #[trigger] connects(rest, i);
            assert(connects(waits, i));
        } else if logins(api, waits) == 1 {
            assert forall|k: int| 0 <= k <= last implies (#[trigger] waits[k]).outcome is Ok by {
                if k < last {
                    assert(rest[k].outcome is Ok);
                }
            }
            assert(connects(waits, last));
        }
        if exists|i: int| #[trigger] connects(waits, i) {
            let i = choose|i: int| #[trigger] connects(waits, i);
            if i < last {
                assert(connects(rest, i));
            } else {
                assert forall|k: int| 0 <= k < rest.len() implies (
                #[trigger] rest[k]).outcome is Ok by {
                    assert(waits[k].outcome is Ok);
                }
                assert(waits[last].outcome is Ok);
            }
        }
    }
}

/// Whether wait `k` fails while the start-up still waits.
pub open spec fn gives_up<N>(api: ApiView, waits: Seq<WaitRecord<N>>, k: int) -> bool {
    &&& 0 <= k < waits.len()
    &&& waits[k].outcome is Err
    &&& is_waiting(after_waits(api, waits.take(k)).phase)
}

/// A start-up is given up exactly by a wait that fails before it is ready.
pub proof fn law_only_a_failed_wait_ends_a_start<N>(api: ApiView, waits: Seq<WaitRecord<N>>)
    requires
        api.phase == Phase::Connecting,
    ensures
        after_waits(api, waits).phase == Phase::Failed <==> exists|k: int| #[trigger]
            gives_up(api, waits, k),
    decreases waits.len(),
{
    if waits.len() > 0 {
        let rest = waits.drop_last();
        let last = waits.len() - 1;
        let before = after_waits(api, rest);
        law_only_a_failed_wait_ends_a_start(api, rest);
        law_login_is_requested_once(api, rest);
        assert forall|k: int| 0 <= k < last implies #[trigger] gives_up(api, waits, k) == gives_up(
            api,
            rest,
            k,
        ) by {
            assert(waits.take(k) =~= rest.take(k));
        }
        assert(gives_up(api, waits, last) == (waits[last].outcome is Err && is_waiting(
            before.phase,
        ))) by {
            assert(waits.take(last) =~= rest);
        }
        if before.phase == Phase::Failed {
            let k = choose|k: int| #[trigger] gives_up(api, rest, k);
            assert(gives_up(api, waits, k));
        }
        if exists|k: int| #[trigger] gives_up(api, waits, k) {
            let k = choose|k: int| #[trigger] gives_up(api, waits, k);
            if k < last {
                assert(gives_up(api, rest, k));
            }
        }
    }
}

/// A wait that fails ends the start-up, whatever events it delivered, and the
/// reason is part of the message.
pub proof fn law_failed_wait_fails_the_start<N>(
    api: ApiView,
    delivered: Seq<MarketData<N>>,
    reason: String,
)
    requires
        is_waiting(api.phase),
    ensures
        api.after_wait(delivered, Err(reason)).0 == Phase::Failed,
        api.after_wait(delivered, Err(reason)).1 matches StepView::Failed(message)
            && reason@.is_suffix_of(message),
{
    let complaint = if api.phase == Phase::Connecting {
        "Error happened when connecting to market server: "@
    } else {
        "Error happened when logining to market server: "@
    };
    let message = complaint + reason@;
    assert(message.skip(message.len() - reason@.len()) =~= reason@);
    assert(reason@.is_suffix_of(message));
}

/// How often a command occurs.
pub open spec fn occurrences(commands: Seq<CommandView>, command: CommandView) -> nat
    decreases commands.len(),
{
    if commands.len() == 0 {
        0
    } else {
        occurrences(commands.drop_last(), command) + if commands.last() == command {
            1nat
        } else {
            0nat
        }
    }
}

proof fn lemma_fronts_touch_no_spi(front_addr: Seq<Seq<char>>)
    ensures
        occurrences(front_commands(front_addr), CommandView::RegisterSpi) == 0,
        occurrences(front_commands(front_addr), CommandView::DropSpi) == 0,
        occurrences(front_commands(front_addr), CommandView::Destruct) == 0,
    decreases front_addr.len(),
{
    if front_addr.len() > 0 {
        lemma_fronts_touch_no_spi(front_addr.drop_last());
        assert(front_commands(front_addr).drop_last() =~= front_commands(front_addr.drop_last()));
    }
}

/// The callback objects of an API, numbered in the order in which they are made.
pub struct Callbacks {
    pub made: nat,
    /// The numbers of those that were freed, in that order.
    pub freed: Seq<int>,
}

impl Callbacks {
    /// The callback objects that a run of commands leaves behind. To free is to
    /// free the one that was registered last.
    pub open spec fn left_by(commands: Seq<CommandView>) -> Callbacks
        decreases commands.len(),
    {
        if commands.len() == 0 {
            Callbacks { made: 0, freed: Seq::empty() }
        } else {
            let before = Callbacks::left_by(commands.drop_last());
            match commands.last() {
                CommandView::RegisterSpi => Callbacks { made: before.made + 1, ..before },
                CommandView::DropSpi => Callbacks {
                    freed: before.freed.push(before.made - 1),
                    ..before
                },
                _ => before,
            }
        }
    }

    /// Whether object `k` was made and not freed.
    pub open spec fn is_live(self, k: int) -> bool {
        0 <= k < self.made && !self.freed.contains(k)
    }
}

/// The numbers below `n`, in order.
pub open spec fn numbers_below(n: nat) -> Seq<int> {
    Seq::new(n, |k: int| k)
}

/// The state after a run of calls.
pub open spec fn after_calls(api: ApiView, calls: Seq<ApiCall>) -> ApiView
    decreases calls.len(),
{
    if calls.len() == 0 {
        api
    } else {
        after_calls(api, calls.drop_last()).after_call(calls.last())
    }
}

/// The commands of a run of calls, one after the other.
pub open spec fn commands_of_calls(api: ApiView, calls: Seq<ApiCall>) -> Seq<CommandView>
    decreases calls.len(),
{
    if calls.len() == 0 {
        Seq::empty()
    } else {
        commands_of_calls(api, calls.drop_last()) + after_calls(
            api,
            calls.drop_last(),
        ).commands_of(calls.last())
    }
}

/// However often callbacks are registered, alone or by start-ups, each call makes
/// one callback object and frees the one before it: all but the newest are freed,
/// once each and in order, and only the newest is alive. The configuration stays
/// as it is, and the native object lives on.
pub proof fn law_only_the_newest_callback_object_lives(api: ApiView, calls: Seq<ApiCall>)
    requires
        !api.spi,
    ensures
        after_calls(api, calls).config == api.config,
        after_calls(api, calls).spi == (calls.len() > 0),
        ({
            let commands = commands_of_calls(api, calls);
            let all_but_one = if calls.len() > 0 {
                (calls.len() - 1) as nat
            } else {
                0
            };
            let callbacks = Callbacks::left_by(commands);
            &&& occurrences(commands, CommandView::RegisterSpi) == calls.len()
            &&& occurrences(commands, CommandView::DropSpi) == all_but_one
            &&& occurrences(commands, CommandView::Destruct) == 0
            &&& callbacks.made == calls.len()
            &&& callbacks.freed == numbers_below(all_but_one)
            &&& forall|k: int| #[trigger] callbacks.is_live(k) <==> 0 <= k == calls.len() - 1
        }),
    decreases calls.len(),
{
    let commands = commands_of_calls(api, calls);
    let callbacks = Callbacks::left_by(commands);
    if calls.len() > 0 {
        let rest = calls.drop_last();
        let before = commands_of_calls(api, rest);
        let had_spi = after_calls(api, rest).spi;
        let fronts = after_calls(api, rest).config.front_addr;
        law_only_the_newest_callback_object_lives(api, rest);
        lemma_registration(before, had_spi);
        let registered = before + register_commands(had_spi);
        if calls.last() is Register {
            assert(commands == registered);
        } else {
            let last = seq![CommandView::Init];
            assert(commands =~= registered + front_commands(fronts) + last);
            lemma_fronts_touch_no_spi(fronts);
            lemma_untouched(registered, front_commands(fronts));
            lemma_occurrences_of_one(CommandView::Init, CommandView::RegisterSpi);
            lemma_occurrences_of_one(CommandView::Init, CommandView::DropSpi);
            lemma_occurrences_of_one(CommandView::Init, CommandView::Destruct);
            lemma_untouched(registered + front_commands(fronts), last);
        }
        if had_spi {
            assert(numbers_below((calls.len() - 1) as nat) =~= numbers_below(
                (calls.len() - 2) as nat,
            ).push(calls.len() - 2));
        }
        assert forall|k: int| #[trigger] callbacks.is_live(k) implies 0 <= k == calls.len() - 1 by {
            if k < calls.len() - 1 {
                assert(callbacks.freed[k] == k);
            }
        }
    } else {
        assert(callbacks.freed =~= numbers_below(0));
    }
}

/// However often callbacks are registered before an API is released, every
/// callback object is freed, once each, and the native object is destroyed once.
pub proof fn law_every_callback_object_is_freed_once(api: ApiView, calls: Seq<ApiCall>)
    requires
        !api.spi,
    ensures
        ({
            let life = commands_of_calls(api, calls) + release_commands(
                after_calls(api, calls).spi,
            );
            let callbacks = Callbacks::left_by(life);
            &&& occurrences(life, CommandView::RegisterSpi) == calls.len()
            &&& occurrences(life, CommandView::DropSpi) == calls.len()
            &&& occurrences(life, CommandView::Destruct) == 1
            &&& callbacks.made == calls.len()
            &&& callbacks.freed == numbers_below(calls.len())
            &&& forall|k: int| !#[trigger] callbacks.is_live(k)
        }),
{
    let begun = commands_of_calls(api, calls);
    let end = release_commands(after_calls(api, calls).spi);
    let life = begun + end;
    law_only_the_newest_callback_object_lives(api, calls);
    reveal_with_fuel(occurrences, 3);
    reveal_with_fuel(Callbacks::left_by, 3);
    let destroyed = begun.push(CommandView::Destruct);
    assert(destroyed.drop_last() =~= begun);
    if calls.len() > 0 {
        assert(life =~= destroyed.push(CommandView::DropSpi));
        assert(life.drop_last() =~= destroyed);
        assert(numbers_below(calls.len()) =~= numbers_below((calls.len() - 1) as nat).push(
            calls.len() - 1,
        ));
    } else {
        assert(life =~= destroyed);
    }
    let callbacks = Callbacks::left_by(life);
    assert forall|k: int| !#[trigger] callbacks.is_live(k) by {
        if 0 <= k < callbacks.made {
            assert(callbacks.freed[k] == k);
        }
    }
}

proof fn lemma_occurrences_of_one(one: CommandView, command: CommandView)
    ensures
        occurrences(seq![one], command) == if one == command {
            1nat
        } else {
            0nat
        },
{
    reveal_with_fuel(occurrences, 2);
    assert(seq![one].drop_last() =~= Seq::empty());
}

/// Registering makes one callback object, and frees the newest where there is one.
proof fn lemma_registration(before: Seq<CommandView>, had_spi: bool)
    ensures
        ({
            let after = before + register_commands(had_spi);
            let old_ones = Callbacks::left_by(before);
            &&& occurrences(after, CommandView::RegisterSpi) == occurrences(
                before,
                CommandView::RegisterSpi,
            ) + 1
            &&& occurrences(after, CommandView::DropSpi) == occurrences(
                before,
                CommandView::DropSpi,
            ) + if had_spi {
                1nat
            } else {
                0nat
            }
            &&& occurrences(after, CommandView::Destruct) == occurrences(
                before,
                CommandView::Destruct,
            )
            &&& Callbacks::left_by(after) == (Callbacks {
                made: old_ones.made + 1,
                freed: if had_spi {
                    old_ones.freed.push(old_ones.made - 1)
                } else {
                    old_ones.freed
                },
            })
        }),
{
    reveal_with_fuel(occurrences, 3);
    reveal_with_fuel(Callbacks::left_by, 3);
    let after = before + register_commands(had_spi);
    if had_spi {
        let middle = before.push(CommandView::DropSpi);
        assert(after =~= middle.push(CommandView::RegisterSpi));
        assert(after.drop_last() =~= middle);
        assert(middle.drop_last() =~= before);
    } else {
        assert(after =~= before.push(CommandView::RegisterSpi));
        assert(after.drop_last() =~= before);
    }
}

/// Commands that neither make nor free a callback object, nor destroy the native
/// object, change nothing of that.
proof fn lemma_untouched(before: Seq<CommandView>, more: Seq<CommandView>)
    requires
        occurrences(more, CommandView::RegisterSpi) == 0,
        occurrences(more, CommandView::DropSpi) == 0,
        occurrences(more, CommandView::Destruct) == 0,
    ensures
        occurrences(before + more, CommandView::RegisterSpi) == occurrences(
            before,
            CommandView::RegisterSpi,
        ),
        occurrences(before + more, CommandView::DropSpi) == occurrences(
            before,
            CommandView::DropSpi,
        ),
        occurrences(before + more, CommandView::Destruct) == occurrences(
            before,
            CommandView::Destruct,
        ),
        Callbacks::left_by(before + more) == Callbacks::left_by(before),
    decreases more.len(),
{
    if more.len() == 0 {
        assert(before + more =~= before);
    } else {
        lemma_untouched(before, more.drop_last());
        assert((before + more).drop_last() =~= before + more.drop_last());
        assert((before + more).last() == more.last());
    }
}

/// A configuration is seen field by field, each in its place, and a blank one has
/// nothing filled in.
pub proof fn law_configuration_is_seen_as_it_is(config: ApiConfig)
    ensures
        config@.flow_path == config.flow_path@,
        config@.is_udp == config.is_udp,
        config@.is_multicast == config.is_multicast,
        config@.front_addr.len() == config.front_addr@.len(),
        forall|i: int|
            0 <= i < config.front_addr@.len() ==> #[trigger] config@.front_addr[i]
                == config.front_addr@[i]@,
        ApiConfigView::blank().flow_path.len() == 0,
        !ApiConfigView::blank().is_udp,
        !ApiConfigView::blank().is_multicast,
        ApiConfigView::blank().front_addr.len() == 0,
{
}

/// A login form is seen buffer by buffer, each in its place.
pub proof fn law_login_form_is_seen_as_it_is(field: UserLoginField)
    ensures
        field@.trading_day == field.trading_day@,
        field@.broker_id == field.broker_id@,
        field@.user_id == field.user_id@,
        field@.password == field.password@,
        field@.user_product_info == field.user_product_info@,
        field@.interface_product_info == field.interface_product_info@,
        field@.protocol_info == field.protocol_info@,
        field@.mac_address == field.mac_address@,
        field@.one_time_password == field.one_time_password@,
        field@.reserve1 == field.reserve1@,
        field@.login_remark == field.login_remark@,
        field@.client_ip_address == field.client_ip_address@,
        field@.client_ip_port == field.client_ip_port,
{
}

/// The login is anonymous: every byte of every buffer of its form is zero, and so
/// is its port. It is the first request.
pub proof fn law_login_is_anonymous()
    ensures
        login_command() matches CommandView::UserLogin { field, request_id } && {
            &&& request_id == 1
            &&& field.client_ip_port == 0
            &&& field.trading_day.len() == 9
            &&& field.broker_id.len() == 11
            &&& field.user_id.len() == 16
            &&& field.password.len() == 41
            &&& field.user_product_info.len() == 11
            &&& field.interface_product_info.len() == 11
            &&& field.protocol_info.len() == 11
            &&& field.mac_address.len() == 21
            &&& field.one_time_password.len() == 41
            &&& field.reserve1.len() == 16
            &&& field.login_remark.len() == 36
            &&& field.client_ip_address.len() == 33
            &&& forall|i: int| 0 <= i < field.trading_day.len() ==> #[trigger] field.trading_day[i] == 0
            &&& forall|i: int| 0 <= i < field.broker_id.len() ==> #[trigger] field.broker_id[i] == 0
            &&& forall|i: int| 0 <= i < field.user_id.len() ==> #[trigger] field.user_id[i] == 0
            &&& forall|i: int| 0 <= i < field.password.len() ==> #[trigger] field.password[i] == 0
            &&& forall|i: int| 0 <= i < field.user_product_info.len() ==> #[trigger] field.user_product_info[i] == 0
            &&& forall|i: int| 0 <= i < field.interface_product_info.len() ==> #[trigger] field.interface_product_info[i] == 0
            &&& forall|i: int| 0 <= i < field.protocol_info.len() ==> #[trigger] field.protocol_info[i] == 0
            &&& forall|i: int| 0 <= i < field.mac_address.len() ==> #[trigger] field.mac_address[i] == 0
            &&& forall|i: int| 0 <= i < field.one_time_password.len() ==> #[trigger] field.one_time_password[i] == 0
            &&& forall|i: int| 0 <= i < field.reserve1.len() ==> #[trigger] field.reserve1[i] == 0
            &&& forall|i: int| 0 <= i < field.login_remark.len() ==> #[trigger] field.login_remark[i] == 0
            &&& forall|i: int| 0 <= i < field.client_ip_address.len() ==> #[trigger] field.client_ip_address[i] == 0
        },
{
}

/// A command is seen as what it is, each part in its place.
pub proof fn law_command_is_seen_as_it_is(
    text: String,
    udp: bool,
    multicast: bool,
    form: UserLoginField,
    number: i32,
    instruments: Vec<String>,
)
    ensures
        (ApiCommand::Create { flow_path: text, is_udp: udp, is_multicast: multicast })@ == (
        CommandView::Create { flow_path: text@, is_udp: udp, is_multicast: multicast }),
        ApiCommand::DropSpi@ == CommandView::DropSpi,
        ApiCommand::RegisterSpi@ == CommandView::RegisterSpi,
        ApiCommand::RegisterFront(text)@ == CommandView::RegisterFront(text@),
        ApiCommand::Init@ == CommandView::Init,
        (ApiCommand::UserLogin { field: form, request_id: number })@ == (CommandView::UserLogin {
            field: form@,
            request_id: number,
        }),
        (ApiCommand::Subscribe { codes: instruments, count: number })@ == (
        CommandView::Subscribe { codes: strings_view(instruments@), count: number }),
        (ApiCommand::Unsubscribe { codes: instruments, count: number })@ == (
        CommandView::Unsubscribe { codes: strings_view(instruments@), count: number }),
        ApiCommand::Destruct@ == CommandView::Destruct,
{
}

/// Commands are seen one by one, in order.
pub proof fn law_commands_are_seen_in_order(commands: Seq<ApiCommand>)
    ensures
        commands_view(commands).len() == commands.len(),
        forall|i: int|
            0 <= i < commands.len() ==> #[trigger] commands_view(commands)[i] == commands[i]@,
{
}

/// A wait and a step of the start-up are seen as what they are.
pub proof fn law_wait_and_step_are_seen_as_they_are(text: String, command: ApiCommand)
    ensures
        Wait::Again@ == WaitView::Again,
        Wait::Done@ == WaitView::Done,
        Wait::Failed(text)@ == WaitView::Failed(text@),
        StartStep::Receive@ == StepView::Receive,
        StartStep::Login(command)@ == StepView::Login(command@),
        StartStep::Ready@ == StepView::Ready,
        StartStep::Failed(text)@ == StepView::Failed(text@),
{
}

/// To begin a start-up, the callback object in use is freed if there is one, a new
/// one is registered, then every front in order, and then the API is told to
/// connect; nothing else is done.
pub proof fn law_start_registers_then_connects(had_spi: bool, front_addr: Seq<Seq<char>>)
    ensures
        ({
            let commands = init_commands(had_spi, front_addr);
            let freed: int = if had_spi {
                1
            } else {
                0
            };
            &&& commands.len() == freed + front_addr.len() + 2
            &&& had_spi ==> commands[0] == CommandView::DropSpi
            &&& commands[freed] == CommandView::RegisterSpi
            &&& commands.last() == CommandView::Init
            &&& forall|i: int|
                0 <= i < front_addr.len() ==> commands[freed + 1 + i] == CommandView::RegisterFront(
                    #[trigger] front_addr[i],
                )
        }),
{
}

/// To register a callback object alone, the one in use is freed if there is one, and
/// a new one is registered.
pub proof fn law_registering_frees_then_registers(had_spi: bool)
    ensures
        register_commands(had_spi).len() == if had_spi {
            2int
        } else {
            1int
        },
        register_commands(had_spi).last() == CommandView::RegisterSpi,
        had_spi ==> register_commands(had_spi)[0] == CommandView::DropSpi,
{
}

/// To release an API, the native object is destroyed, and then the callback object is
/// freed if there is one.
pub proof fn law_release_destroys_then_frees(had_spi: bool)
    ensures
        release_commands(had_spi).len() == if had_spi {
            2int
        } else {
            1int
        },
        release_commands(had_spi)[0] == CommandView::Destruct,
        had_spi ==> release_commands(had_spi)[1] == CommandView::DropSpi,
{
}

/// Every call that registers leaves a callback object registered and the
/// configuration as it was; a start waits for the connection next, the others leave
/// the phase alone. A start and an initialisation hand out the same commands.
pub proof fn law_calls_register_and_keep_the_configuration(api: ApiView, call: ApiCall)
    ensures
        api.after_call(call).spi,
        api.after_call(call).config == api.config,
        call is Start ==> api.after_call(call).phase == Phase::Connecting,
        !(call is Start) ==> api.after_call(call).phase == api.phase,
        call is Register ==> api.commands_of(call) == register_commands(api.spi),
        !(call is Register) ==> api.commands_of(call) == init_commands(
            api.spi,
            api.config.front_addr,
        ),
{
}

/// A wait of a start-up fails it where the channel failed, in words that end in the
/// reason. Else the connection has the login requested, the login makes the start-up
/// ready, and without the awaited event the start-up goes on waiting for it.
pub proof fn law_wait_moves_the_start_on<N>(
    api: ApiView,
    delivered: Seq<MarketData<N>>,
    outcome: Result<(), String>,
)
    requires
        api.phase == Phase::Connecting || api.phase == Phase::LoggingIn,
    ensures
        ({
            let (phase, step) = api.after_wait(delivered, outcome);
            let connected = exists|i: int|
                0 <= i < delivered.len() && #[trigger] delivered[i] is Connected;
            let logged_in = exists|i: int|
                0 <= i < delivered.len() && #[trigger] delivered[i] is UserLogin;
            match outcome {
                Err(reason) => {
                    &&& phase == Phase::Failed
                    &&& api.phase == Phase::Connecting ==> step == StepView::Failed(
                        "Error happened when connecting to market server: "@ + reason@,
                    )
                    &&& api.phase == Phase::LoggingIn ==> step == StepView::Failed(
                        "Error happened when logining to market server: "@ + reason@,
                    )
                },
                Ok(_) => if api.phase == Phase::Connecting {
                    if connected {
                        phase == Phase::LoggingIn && step == StepView::Login(login_command())
                    } else {
                        phase == Phase::Connecting && step == StepView::Receive
                    }
                } else {
                    if logged_in {
                        phase == Phase::Ready && step == StepView::Ready
                    } else {
                        phase == Phase::LoggingIn && step == StepView::Receive
                    }
                },
            }
        }),
{
}

/// A single wait fails exactly where the channel failed, with the complaint and then
/// the reason; else it is done exactly where the awaited event came. Both kinds of
/// event count wherever they stand among others.
pub proof fn law_single_wait_is_judged_by_what_came<N>(
    delivered: Seq<MarketData<N>>,
    came: bool,
    outcome: Result<(), String>,
    complaint: Seq<char>,
)
    ensures
        outcome matches Err(reason) ==> wait_outcome(came, outcome, complaint) == WaitView::Failed(
            complaint + reason@,
        ),
        outcome is Ok && came ==> wait_outcome(came, outcome, complaint) == WaitView::Done,
        outcome is Ok && !came ==> wait_outcome(came, outcome, complaint) == WaitView::Again,
        reports_connected(delivered) <==> exists|i: int|
            0 <= i < delivered.len() && #[trigger] delivered[i] is Connected,
        reports_login(delivered) <==> exists|i: int|
            0 <= i < delivered.len() && #[trigger] delivered[i] is UserLogin,
{
}

/// Strings can be handed to the native side exactly where no character of any of
/// them is number zero.
pub proof fn law_all_strings_are_without_character_zero(strings: Seq<Seq<char>>)
    ensures
        all_nul_free(strings) <==> forall|i: int, j: int|
            0 <= i < strings.len() && 0 <= j < strings[i].len() ==> #[trigger] strings[i][j] as int
                != 0,
{
    assert forall|i: int| 0 <= i < strings.len() implies (nul_free(#[trigger] strings[i])
        <==> forall|j: int| 0 <= j < strings[i].len() ==> #[trigger] strings[i][j] as int != 0) by {
        law_nul_is_character_zero(strings[i]);
    }
}

/// Of the answers of the native side only zero is success. Every other one has a
/// message of its own, with the number at its end.
pub proof fn law_only_zero_is_success(
    rtn: i32,
    result: Result<(), String>,
    other: i32,
    other_result: Result<(), String>,
)
    requires
        call_ensures(MDApi::subscribe_reply, (rtn,), result),
        call_ensures(MDApi::subscribe_reply, (other,), other_result),
    ensures
        result is Ok <==> rtn == 0,
        result matches Err(message) ==> signed_decimal_view(rtn as int).is_suffix_of(message@),
        result matches Err(message) ==> other_result matches Err(other_message) ==> (message@
            == other_message@ ==> rtn == other),
{
    let complaint = "Fail to req `md_api_subscribe_market_data`: "@;
    let one = signed_decimal_view(rtn as int);
    let another = signed_decimal_view(other as int);
    assert((complaint + one).skip(complaint.len() as int) =~= one);
    assert((complaint + another).skip(complaint.len() as int) =~= another);
    law_signed_decimal_is_a_numeral(rtn as int);
    law_signed_decimal_is_a_numeral(other as int);
}

/// A subscription and its end name the same instruments, in order and with their
/// number, and differ in what they ask for.
pub proof fn law_subscription_names_its_instruments<'a>(
    api: &MDApi,
    codes: &[&'a str],
    command: ApiCommand,
    opposite: ApiCommand,
)
    requires
        call_ensures(MDApi::subscribe_market_data, (api, codes, false), command),
        call_ensures(MDApi::subscribe_market_data, (api, codes, true), opposite),
    ensures
        command@ matches CommandView::Subscribe { codes: named, count } && {
            &&& named.len() == codes@.len()
            &&& forall|i: int| 0 <= i < named.len() ==> #[trigger] named[i] == codes@[i]@
            &&& codes@.len() <= i32::MAX ==> count == codes@.len()
            &&& opposite@ == (CommandView::Unsubscribe { codes: named, count })
        },
{
}

} // verus!

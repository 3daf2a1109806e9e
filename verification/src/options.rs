//! Options for an admin API request.
use vstd::prelude::*;

verus! {

/// The number of nanoseconds in a second.
pub const NANOS_PER_SEC: u32 = 1_000_000_000;

/// The number of nanoseconds in a millisecond.
pub const NANOS_PER_MILLI: u32 = 1_000_000;

/// A span of time, in whole seconds and the nanoseconds beyond them.
#[derive(Clone, Copy, Debug, PartialEq, Eq)]
pub struct Timeout {
    secs: u64,
    nanos: u32,
}

impl Timeout {
    #[verifier::type_invariant]
    spec fn nanos_below_a_second(self) -> bool {
        self.nanos < NANOS_PER_SEC
    }

    /// The whole seconds of the span.
    pub closed spec fn spec_secs(self) -> u64 {
        self.secs
    }

    /// The nanoseconds beyond the whole seconds.
    pub closed spec fn spec_subsec_nanos(self) -> u32 {
        self.nanos
    }

    /// A span of `secs` seconds and `nanos` nanoseconds; nanoseconds beyond a
    /// second carry over into the seconds.
    pub fn new(secs: u64, nanos: u32) -> (t: Timeout)
        requires
            secs + nanos / NANOS_PER_SEC <= u64::MAX,
        ensures
            t@ == secs * 1_000_000_000 + nanos,
    {
        let carry: u64 = (nanos / NANOS_PER_SEC) as u64;
        let t = Timeout { secs: secs + carry, nanos: nanos % NANOS_PER_SEC };
        proof {
            lemma_split_nanos(nanos as int);
        }
        t
    }

    /// A span of `secs` whole seconds.
    pub fn from_secs(secs: u64) -> (t: Timeout)
        ensures
            t@ == secs * 1_000_000_000,
    {
        Timeout { secs, nanos: 0 }
    }

    /// A span of `millis` milliseconds.
    pub fn from_millis(millis: u64) -> (t: Timeout)
        ensures
            t@ == millis * 1_000_000,
    {
        let secs = millis / 1000;
        let rest: u64 = millis % 1000;
        assert(rest * 1_000_000 < 1_000_000_000) by (nonlinear_arith)
            requires
                rest < 1000,
        ;
        let nanos: u32 = (rest * 1_000_000) as u32;
        let t = Timeout { secs, nanos };
        assert(secs * 1_000_000_000 + nanos == millis * 1_000_000) by (nonlinear_arith)
            requires
                secs == millis / 1000,
                rest == millis % 1000,
                nanos == rest * 1_000_000,
        ;
        t
    }

    /// The whole seconds of the span.
    pub fn as_secs(&self) -> (s: u64)
        ensures
            s == self@ / 1_000_000_000,
    {
        proof {
            use_type_invariant(self);
            lemma_div_mod_nanos(self.secs as int, self.nanos as int);
        }
        self.secs
    }

    /// The nanoseconds beyond the whole seconds.
    pub fn subsec_nanos(&self) -> (n: u32)
        ensures
            n == self@ % 1_000_000_000,
    {
        proof {
            use_type_invariant(self);
            lemma_div_mod_nanos(self.secs as int, self.nanos as int);
        }
        self.nanos
    }
}

impl View for Timeout {
    /// The length of the span in nanoseconds.
    type V = nat;

    closed spec fn view(&self) -> nat {
        (self.secs * 1_000_000_000 + self.nanos) as nat
    }
}

proof fn lemma_split_nanos(nanos: int)
    requires
        0 <= nanos,
    ensures
        (nanos / 1_000_000_000) * 1_000_000_000 + nanos % 1_000_000_000 == nanos,
        nanos % 1_000_000_000 < 1_000_000_000,
{
}

proof fn lemma_div_mod_nanos(secs: int, nanos: int)
    requires
        0 <= secs,
        0 <= nanos < 1_000_000_000,
    ensures
        (secs * 1_000_000_000 + nanos) / 1_000_000_000 == secs,
        (secs * 1_000_000_000 + nanos) % 1_000_000_000 == nanos,
        (secs * 1_000_000_000 + nanos) / 1_000_000 == secs * 1000 + nanos / 1_000_000,
{
    assert((secs * 1_000_000_000 + nanos) / 1_000_000_000 == secs) by (nonlinear_arith)
        requires
            0 <= secs,
            0 <= nanos < 1_000_000_000,
    ;
    assert((secs * 1_000_000_000 + nanos) / 1_000_000 == secs * 1000 + nanos / 1_000_000)
        by (nonlinear_arith)
        requires
            0 <= secs,
            0 <= nanos,
    ;
}

/// The millisecond count librdkafka is given for a timeout: the whole
/// milliseconds of the span cut to 32 bits, and `-1` for none.
pub open spec fn timeout_ms_spec(timeout: Option<Timeout>) -> i32 {
    match timeout {
        None => -1i32,
        Some(t) => (t@ / 1_000_000) as i32,
    }
}

/// Converts a timeout to the millisecond count librdkafka takes.
pub fn timeout_to_ms(timeout: Option<Timeout>) -> (ms: i32)
    ensures
        ms == timeout_ms_spec(timeout),
{
    match timeout {
        None => -1,
        Some(t) => {
            let secs = t.as_secs();
            let nanos = t.subsec_nanos();
            proof {
                use_type_invariant(&t);
                lemma_div_mod_nanos(t.spec_secs() as int, t.spec_subsec_nanos() as int);
            }
            let millis: u128 = secs as u128 * 1000 + (nanos / NANOS_PER_MILLI) as u128;
            millis as i32
        },
    }
}

/// Options for an admin API request.
#[derive(Clone, Copy, Debug, PartialEq, Eq)]
pub struct AdminOptions {
    request_timeout: Option<Timeout>,
    operation_timeout: Option<Timeout>,
    validate_only: bool,
    broker_id: Option<i32>,
}

/// What `AdminOptions` hold.
pub struct AdminOptionsView {
    pub request_timeout: Option<Timeout>,
    pub operation_timeout: Option<Timeout>,
    pub validate_only: bool,
    pub broker_id: Option<i32>,
}

impl View for AdminOptions {
    type V = AdminOptionsView;

    closed spec fn view(&self) -> AdminOptionsView {
        AdminOptionsView {
            request_timeout: self.request_timeout,
            operation_timeout: self.operation_timeout,
            validate_only: self.validate_only,
            broker_id: self.broker_id,
        }
    }
}

/// One setting that an admin request is given in librdkafka.
#[derive(Clone, Copy, Debug, PartialEq, Eq, Structural)]
pub enum AdminOptionSetting {
    /// The overall request timeout, in milliseconds.
    RequestTimeout(i32),
    /// The broker's operation timeout, in milliseconds.
    OperationTimeout(i32),
    /// Only validate the request.
    ValidateOnly,
    /// The broker the request goes to.
    Broker(i32),
}

/// The settings that options stand for, in the order they are applied.
pub open spec fn settings_spec(o: AdminOptionsView) -> Seq<AdminOptionSetting> {
    let a = match o.request_timeout {
        Some(t) => seq![AdminOptionSetting::RequestTimeout(timeout_ms_spec(Some(t)))],
        None => Seq::empty(),
    };
    let b = match o.operation_timeout {
        Some(t) => seq![AdminOptionSetting::OperationTimeout(timeout_ms_spec(Some(t)))],
        None => Seq::empty(),
    };
    let c = if o.validate_only {
        seq![AdminOptionSetting::ValidateOnly]
    } else {
        Seq::empty()
    };
    let d = match o.broker_id {
        Some(id) => seq![AdminOptionSetting::Broker(id)],
        None => Seq::empty(),
    };
    a + b + c + d
}

impl AdminOptions {
    /// Creates a new `AdminOptions`: no timeouts, no validation-only mode and
    /// no particular broker.
    pub fn new() -> (o: AdminOptions)
        ensures
            o@ == (AdminOptionsView {
                request_timeout: None,
                operation_timeout: None,
                validate_only: false,
                broker_id: None,
            }),
    {
        AdminOptions {
            request_timeout: None,
            operation_timeout: None,
            validate_only: false,
            broker_id: None,
        }
    }

    /// Sets the overall request timeout, including broker lookup, request
    /// transmission, operation time on broker, and response.
    ///
    /// Defaults to the `socket.timeout.ms` configuration parameter.
    pub fn request_timeout(self, timeout: Option<Timeout>) -> (o: AdminOptions)
        ensures
            o@ == (AdminOptionsView { request_timeout: timeout, ..self@ }),
    {
        AdminOptions { request_timeout: timeout, ..self }
    }

    /// Sets the broker's operation timeout, such as the timeout for
    /// CreateTopics to complete the creation of topics on the controller
    /// before returning a result to the application.
    ///
    /// If unset (the default), the API calls will return immediately after
    /// triggering the operation.
    pub fn operation_timeout(self, timeout: Option<Timeout>) -> (o: AdminOptions)
        ensures
            o@ == (AdminOptionsView { operation_timeout: timeout, ..self@ }),
    {
        AdminOptions { operation_timeout: timeout, ..self }
    }

    /// Tells the broker to only validate the request, without performing the
    /// requested operation. Defaults to false.
    pub fn validate_only(self, validate_only: bool) -> (o: AdminOptions)
        ensures
            o@ == (AdminOptionsView { validate_only, ..self@ }),
    {
        AdminOptions { validate_only, ..self }
    }

    /// Overrides what broker the admin request will be sent to.
    pub fn broker_id(self, broker_id: Option<i32>) -> (o: AdminOptions)
        ensures
            o@ == (AdminOptionsView { broker_id, ..self@ }),
    {
        AdminOptions { broker_id, ..self }
    }

    /// The settings these options give a librdkafka request, in the order
    /// they are applied: request timeout, operation timeout, validation-only
    /// mode, broker. Unset options give none.
    pub fn to_native(&self) -> (settings: Vec<AdminOptionSetting>)
        ensures
            settings@ == settings_spec(self@),
    {
        let mut settings: Vec<AdminOptionSetting> = Vec::new();
        if let Some(t) = self.request_timeout {
            settings.push(AdminOptionSetting::RequestTimeout(timeout_to_ms(Some(t))));
        }
        if let Some(t) = self.operation_timeout {
            settings.push(AdminOptionSetting::OperationTimeout(timeout_to_ms(Some(t))));
        }
        if self.validate_only {
            settings.push(AdminOptionSetting::ValidateOnly);
        }
        if let Some(id) = self.broker_id {
            settings.push(AdminOptionSetting::Broker(id));
        }
        assert(settings@ =~= settings_spec(self@));
        settings
    }
}

/// Each option gives exactly its own setting, whatever the others are: the
/// validation-only setting exactly when validation-only mode is on, the
/// broker setting with exactly the chosen broker, each timeout setting with
/// exactly the whole milliseconds of its timeout (cut to 32 bits), and one
/// setting per option that is set.
pub proof fn law_settings(o: AdminOptionsView)
    ensures
        settings_spec(o).contains(AdminOptionSetting::ValidateOnly) <==> o.validate_only,
        forall|id: i32|
            #![trigger settings_spec(o).contains(AdminOptionSetting::Broker(id))]
            settings_spec(o).contains(AdminOptionSetting::Broker(id)) <==> o.broker_id == Some(id),
        forall|ms: i32|
            #![trigger settings_spec(o).contains(AdminOptionSetting::RequestTimeout(ms))]
            settings_spec(o).contains(AdminOptionSetting::RequestTimeout(ms)) <==> (
            o.request_timeout is Some && ms == (o.request_timeout->0@ / 1_000_000) as i32),
        forall|ms: i32|
            #![trigger settings_spec(o).contains(AdminOptionSetting::OperationTimeout(ms))]
            settings_spec(o).contains(AdminOptionSetting::OperationTimeout(ms)) <==> (
            o.operation_timeout is Some && ms == (o.operation_timeout->0@ / 1_000_000) as i32),
        settings_spec(o).len() == (if o.request_timeout is Some {
            1int
        } else {
            0
        }) + (if o.operation_timeout is Some {
            1int
        } else {
            0
        }) + (if o.validate_only {
            1int
        } else {
            0
        }) + (if o.broker_id is Some {
            1int
        } else {
            0
        }),
{
    let s = settings_spec(o);
    let a = match o.request_timeout {
        Some(t) => seq![AdminOptionSetting::RequestTimeout(timeout_ms_spec(Some(t)))],
        None => Seq::empty(),
    };
    let b = match o.operation_timeout {
        Some(t) => seq![AdminOptionSetting::OperationTimeout(timeout_ms_spec(Some(t)))],
        None => Seq::empty(),
    };
    let c = if o.validate_only {
        seq![AdminOptionSetting::ValidateOnly]
    } else {
        Seq::empty()
    };
    let d = match o.broker_id {
        Some(id) => seq![AdminOptionSetting::Broker(id)],
        None => Seq::empty(),
    };
    assert(s == a + b + c + d);
    // every setting sits in the part of the option it comes from
    assert forall|i: int| 0 <= i < s.len() implies {
        &&& (s[i] is ValidateOnly ==> o.validate_only)
        &&& (s[i] matches AdminOptionSetting::Broker(id) ==> o.broker_id == Some(id))
        &&& (s[i] matches AdminOptionSetting::RequestTimeout(ms) ==> o.request_timeout is Some
            && ms == (o.request_timeout->0@ / 1_000_000) as i32)
        &&& (s[i] matches AdminOptionSetting::OperationTimeout(ms) ==> o.operation_timeout is Some
            && ms == (o.operation_timeout->0@ / 1_000_000) as i32)
    } by {
        if i < a.len() {
            assert(s[i] == a[i]);
        } else if i < a.len() + b.len() {
            assert(s[i] == b[i - a.len()]);
        } else if i < a.len() + b.len() + c.len() {
            assert(s[i] == c[i - a.len() - b.len()]);
        } else {
            assert(s[i] == d[i - a.len() - b.len() - c.len()]);
        }
    }
    if o.validate_only {
        assert(s[(a.len() + b.len()) as int] == AdminOptionSetting::ValidateOnly);
    }
    if let Some(id) = o.broker_id {
        assert(s[(a.len() + b.len() + c.len()) as int] == AdminOptionSetting::Broker(id));
    }
    if let Some(t) = o.request_timeout {
        assert(s[0] == AdminOptionSetting::RequestTimeout(timeout_ms_spec(Some(t))));
    }
    if let Some(t) = o.operation_timeout {
        assert(s[a.len() as int] == AdminOptionSetting::OperationTimeout(timeout_ms_spec(Some(t))));
    }
}

} // verus!

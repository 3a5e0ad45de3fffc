//! Built-in alert rules: which alerts a port or a mempool raises, in what
//! order, and how severe each is.

use vstd::prelude::*;
use crate::text::{decimal, decimal_string};

verus! {

/// How severe an alert is.
#[derive(Clone, Copy, Debug, PartialEq, Eq, Structural)]
pub enum AlertSeverity {
    Warning,
    Critical,
}

/// The built-in alerts.
#[derive(Clone, Copy, Debug, PartialEq, Eq, Structural)]
pub enum AlertKind {
    /// Mempool utilization above 98%.
    MempoolCritical,
    /// Mempool utilization above 90%.
    MempoolHigh,
    /// Packets missed on receive.
    RxMissedRising,
    /// Receive failures for want of mbufs.
    RxNombufRising,
    /// The port's link is not up.
    LinkDown,
}

/// The severity of each alert kind.
pub open spec fn spec_severity(k: AlertKind) -> AlertSeverity {
    match k {
        AlertKind::MempoolHigh | AlertKind::RxMissedRising => AlertSeverity::Warning,
        _ => AlertSeverity::Critical,
    }
}

impl AlertKind {
    /// The kind's severity: missed packets and high mempool use warn, the
    /// rest are critical.
    pub fn severity(&self) -> (s: AlertSeverity)
        ensures
            s == spec_severity(*self),
    {
        match self {
            AlertKind::MempoolHigh | AlertKind::RxMissedRising => AlertSeverity::Warning,
            _ => AlertSeverity::Critical,
        }
    }

    /// The kind's name as alerts report it.
    pub fn name(&self) -> (n: &'static str)
        ensures
            n@ == match *self {
                AlertKind::MempoolCritical => "mempool_critical"@,
                AlertKind::MempoolHigh => "mempool_high"@,
                AlertKind::RxMissedRising => "rx_missed_rising"@,
                AlertKind::RxNombufRising => "rx_nombuf_rising"@,
                AlertKind::LinkDown => "link_down"@,
            },
    {
        match self {
            AlertKind::MempoolCritical => "mempool_critical",
            AlertKind::MempoolHigh => "mempool_high",
            AlertKind::RxMissedRising => "rx_missed_rising",
            AlertKind::RxNombufRising => "rx_nombuf_rising",
            AlertKind::LinkDown => "link_down",
        }
    }
}

/// The alerts a port raises, in order: missed packets (a warning), then
/// mbuf exhaustion, then a link that is not up (both critical).
pub open spec fn spec_port_alerts(rx_missed_rising: bool, rx_nombuf_rising: bool, link_up: bool) -> Seq<AlertKind> {
    (if rx_missed_rising { seq![AlertKind::RxMissedRising] } else { Seq::empty() })
        + (if rx_nombuf_rising { seq![AlertKind::RxNombufRising] } else { Seq::empty() })
        + (if !link_up { seq![AlertKind::LinkDown] } else { Seq::empty() })
}

/// The alerts a port raises, given whether its missed-packet rate and its
/// no-mbuf rate are above zero and whether its link is up.
pub fn port_alert_kinds(rx_missed_rising: bool, rx_nombuf_rising: bool, link_up: bool) -> (out: Vec<AlertKind>)
    ensures
        out@ == spec_port_alerts(rx_missed_rising, rx_nombuf_rising, link_up),
{
    let mut out: Vec<AlertKind> = Vec::new();
    if rx_missed_rising {
        out.push(AlertKind::RxMissedRising);
    }
    if rx_nombuf_rising {
        out.push(AlertKind::RxNombufRising);
    }
    if !link_up {
        out.push(AlertKind::LinkDown);
    }
    assert(out@ =~= spec_port_alerts(rx_missed_rising, rx_nombuf_rising, link_up));
    out
}

/// The alert a mempool raises, given whether its utilization is above the
/// critical threshold (98%) and above the warning threshold (90%): at most
/// one, the critical one taking precedence.
pub fn mempool_alert_kind(above_critical: bool, above_warning: bool) -> (k: Option<AlertKind>)
    ensures
        k == if above_critical {
            Some(AlertKind::MempoolCritical)
        } else if above_warning {
            Some(AlertKind::MempoolHigh)
        } else {
            None::<AlertKind>
        },
{
    if above_critical {
        Some(AlertKind::MempoolCritical)
    } else if above_warning {
        Some(AlertKind::MempoolHigh)
    } else {
        None
    }
}

/// Each port problem raises exactly one alert, so the number of alerts is
/// the number of problems; every alert but the missed-packet one is
/// critical; a healthy port raises none.
pub proof fn lemma_port_alerts_count(rx_missed_rising: bool, rx_nombuf_rising: bool, link_up: bool)
    ensures
        spec_port_alerts(rx_missed_rising, rx_nombuf_rising, link_up).len()
            == (if rx_missed_rising { 1int } else { 0 }) + (if rx_nombuf_rising { 1int } else { 0 })
                + (if !link_up { 1int } else { 0 }),
        forall|i: int| 0 <= i < spec_port_alerts(rx_missed_rising, rx_nombuf_rising, link_up).len()
            ==> (spec_severity(#[trigger] spec_port_alerts(rx_missed_rising, rx_nombuf_rising, link_up)[i])
                == AlertSeverity::Warning
                <==> spec_port_alerts(rx_missed_rising, rx_nombuf_rising, link_up)[i] == AlertKind::RxMissedRising),
        !rx_missed_rising && !rx_nombuf_rising && link_up ==>
            spec_port_alerts(rx_missed_rising, rx_nombuf_rising, link_up).len() == 0,
{
}

/// The message of a link-down alert.
pub fn link_down_message(port_id: u16) -> (m: String)
    ensures
        m@ == "Port "@ + decimal(port_id as nat) + " link down"@,
{
    let mut m = "Port ".to_owned();
    let d = decimal_string(port_id as u64);
    m.append(d.as_str());
    m.append(" link down");
    m
}

} // verus!

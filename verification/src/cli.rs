//! What the command line says, once it has been read.

use crate::text::opt_text;
use vstd::prelude::*;

verus! {

/// The command line: where records come from, and how they are printed.
pub struct Cli {
    pub source: Source,
    /// machine-readable JSON in place of compact text
    pub json: bool,
    /// complete messages and stack traces in the text views
    pub full: bool,
}

/// How to reach Loki.
pub struct Conn {
    /// substring of a Loki datasource's name, if several exist
    pub datasource: Option<String>,
    /// look the datasource up again
    pub refresh_datasource: bool,
    /// skip the rotation of the session cookie before querying
    pub no_rotate: bool,
}

/// How to reach the dashboards.
pub struct DashboardConn {
    /// skip the rotation of the session cookie before querying
    pub no_rotate: bool,
}

/// Which records to keep.
pub struct Filter {
    /// the service contains this, in any case
    pub service: Option<String>,
    /// the logger contains this, in any case
    pub logger: Option<String>,
    /// the message or the stack contains this, in any case
    pub match_: Option<String>,
    /// at or after this prefix of an ISO timestamp
    pub after: Option<String>,
    /// at or before this prefix of an ISO timestamp
    pub before: Option<String>,
}

/// The model of a filter.
pub struct FilterView {
    pub service: Option<Seq<char>>,
    pub logger: Option<Seq<char>>,
    pub matching: Option<Seq<char>>,
    pub after: Option<Seq<char>>,
    pub before: Option<Seq<char>>,
}

impl vstd::view::View for Filter {
    type V = FilterView;

    open spec fn view(&self) -> FilterView {
        FilterView {
            service: opt_text(self.service),
            logger: opt_text(self.logger),
            matching: opt_text(self.match_),
            after: opt_text(self.after),
            before: opt_text(self.before),
        }
    }
}

/// The namespaces that scope a stream selector.
pub struct Ns {
    pub namespace: Vec<String>,
}

/// The time window of a query.
pub struct TimeRange {
    /// how far to look back (30m, 2h, 1d), where there is no start
    pub since: String,
    /// absolute start: RFC 3339 (an offset is honored, without one the time is UTC), or
    /// seconds or nanoseconds since the epoch
    pub start: Option<String>,
    /// absolute end in the same forms, or `now`
    pub end: String,
}

/// Where records or series come from.
#[allow(inconsistent_fields)]
pub enum Source {
    /// a downloaded JSON export
    File { file: Option<String>, filter: Filter, view: View },
    /// a live LogQL log query
    Live {
        query: String,
        limit: usize,
        time: TimeRange,
        conn: Conn,
        ns: Ns,
        filter: Filter,
        view: View,
    },
    /// a LogQL metric query
    Metric { query: String, step: String, time: TimeRange, conn: Conn, ns: Ns },
    /// the label names in the time window
    Labels { time: TimeRange, conn: Conn, ns: Ns },
    /// the values of a label
    Values { label: String, query: Option<String>, time: TimeRange, conn: Conn, ns: Ns },
    /// the series behind a dashboard panel
    Dashboard {
        url: String,
        panel: Option<String>,
        since: Option<String>,
        start: Option<String>,
        end: Option<String>,
        step: Option<String>,
        var: Vec<String>,
        query_only: bool,
        conn: DashboardConn,
    },
    /// set, refresh or test the session cookie
    Cookie { value: Option<String>, stdin: bool, test: bool },
    /// set or test a service-account token
    Token { value: Option<String>, stdin: bool, test: bool, clear: bool },
    /// set or show the Grafana base URL
    Url { value: Option<String> },
    /// rotate the session token to keep it alive
    Keepalive,
}

/// How to look at records.
#[allow(inconsistent_fields)]
pub enum View {
    /// counts by level, service and logger, and the top error patterns
    Summary,
    /// records at error levels
    Errors { warn: bool, level: Option<String> },
    /// records whose message or stack matches a regular expression
    Grep { pattern: String, ignore_case: bool, limit: usize },
    /// the records of a trace, in the order of time
    Trace { trace_id: String },
    /// one record in full
    Show { index: usize },
    /// messages clustered by signature
    Patterns { limit: usize, level: Option<String> },
    /// record volume over time
    Timeline { buckets: usize },
}

} // verus!

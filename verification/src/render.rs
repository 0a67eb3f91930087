//! Rendering the snapshot as two fixed-width text tables: the account
//! summary and the model-by-account quota grid.  Colors are an explicit
//! theme value handed in by the caller; widths are fixed constants.

use vstd::prelude::*;
use crate::classify::{count_rate_limited, count_stats, get_account_status};
use crate::model::{Account, Quota, QuotaEntry, RateLimitEntry, Snapshot, StatusKind};
use crate::model::{count_by, limited_count, status_of};
use crate::text::{
    dec_digits,
    email_local,
    get_short_email,
    rep_chars,
    pad_chars,
    pad_right,
    repeat_char,
    str_eq,
    u64_to_string,
};
use crate::timefmt::{
    format_reset_time,
    format_timestamp,
    in_calendar_range,
    parse_rfc3339_millis,
    rfc3339_millis,
    wait_chars,
};

verus! {

/// The escape sequences a renderer decorates with; an all-empty theme
/// renders plain text.
pub struct Theme {
    pub reset: String,
    pub bold: String,
    pub dim: String,
    pub red: String,
    pub green: String,
    pub yellow: String,
    pub cyan: String,
}

/// How one cell of the quota grid is classified.
#[derive(Clone, Copy, Debug, PartialEq, Eq, Structural)]
pub enum CellClass {
    Exhausted,
    Low,
    Healthy,
    Missing,
}

/// The quota behind an optional reference.
pub open spec fn opt_quota(q: Option<&Quota>) -> Option<Quota> {
    match q {
        Some(x) => Some(*x),
        None => None,
    }
}

/// The classification of a cell: missing without a quota entry; exhausted
/// when nothing remains or the model is rate limited; low under three
/// tenths; healthy otherwise.
pub open spec fn cell_class_of(q: Option<Quota>, limited: bool) -> CellClass {
    match q {
        None => CellClass::Missing,
        Some(qq) => if qq.remaining_permyriad == 0 || limited {
            CellClass::Exhausted
        } else if qq.remaining_permyriad < 3000 {
            CellClass::Low
        } else {
            CellClass::Healthy
        },
    }
}

/// Classifies one cell.
pub fn classify_cell(q: Option<&Quota>, limited: bool) -> (r: CellClass)
    ensures
        r == cell_class_of(opt_quota(q), limited),
{
    match q {
        None => CellClass::Missing,
        Some(qq) => {
            if qq.remaining_permyriad == 0 || limited {
                CellClass::Exhausted
            } else if qq.remaining_permyriad < 3000 {
                CellClass::Low
            } else {
                CellClass::Healthy
            }
        },
    }
}

/// The remaining percentage shown in a cell, rounded.
pub open spec fn pct_of(permyriad: int) -> int {
    (permyriad + 50) / 100
}

/// The text of one quota cell: "N/A" without an entry; the rounded
/// percentage; and, when exhausted or rate limited and a reset time is
/// present, the wait countdown.
pub open spec fn cell_chars(q: Option<Quota>, limited: bool, now_ms: int) -> Seq<char> {
    match q {
        None => "N/A"@,
        Some(qq) => {
            let pct = dec_digits(pct_of(qq.remaining_permyriad as int)) + "%"@;
            if qq.remaining_permyriad == 0 || limited {
                match qq.reset_time {
                    Some(t) => pct + " (wait "@ + wait_chars(t@, now_ms) + ")"@,
                    None => pct,
                }
            } else {
                pct
            }
        },
    }
}

/// Renders the text of one quota cell against the given current instant.
pub fn quota_cell_text(q: Option<&Quota>, limited: bool, now_ms: i64) -> (r: String)
    ensures
        r@ == cell_chars(opt_quota(q), limited, now_ms as int),
{
    match q {
        None => String::from_str("N/A"),
        Some(qq) => {
            let pct: u64 = ((qq.remaining_permyriad as u64) + 50) / 100;
            let mut out = u64_to_string(pct);
            out.append("%");
            if qq.remaining_permyriad == 0 || limited {
                match &qq.reset_time {
                    Some(t) => {
                        out.append(" (wait ");
                        let wait = format_reset_time(t.as_str(), now_ms);
                        out.append(wait.as_str());
                        out.append(")");
                    },
                    None => {},
                }
            }
            out
        },
    }
}

/// The label shown in the status column.
pub open spec fn label_chars(a: Account) -> Seq<char> {
    match status_of(a) {
        StatusKind::Invalid => "invalid"@,
        StatusKind::Disabled => "disabled"@,
        StatusKind::Okay => "ok"@,
        StatusKind::Limited => "("@ + dec_digits(limited_count(a.rate_limits@)) + "/"@
            + dec_digits(a.rate_limits@.len() as int) + ") limited"@,
    }
}

/// Renders the status label of an account, counting its limited models.
pub fn status_label(a: &Account) -> (r: String)
    ensures
        r@ == label_chars(*a),
{
    match get_account_status(a) {
        StatusKind::Invalid => String::from_str("invalid"),
        StatusKind::Disabled => String::from_str("disabled"),
        StatusKind::Okay => String::from_str("ok"),
        StatusKind::Limited => {
            let n = count_rate_limited(&a.rate_limits);
            let total = a.rate_limits.len();
            let mut out = String::from_str("(");
            let ns = u64_to_string(n as u64);
            out.append(ns.as_str());
            out.append("/");
            let ts = u64_to_string(total as u64);
            out.append(ts.as_str());
            out.append(") limited");
            out
        },
    }
}

/// The color for a status kind.
pub open spec fn color_chars(k: StatusKind, th: Theme) -> Seq<char> {
    match k {
        StatusKind::Invalid => th.red@,
        StatusKind::Disabled => th.dim@,
        StatusKind::Limited => th.yellow@,
        StatusKind::Okay => th.green@,
    }
}

fn status_color<'a>(k: StatusKind, th: &'a Theme) -> (r: &'a String)
    ensures
        r@ == color_chars(k, *th),
{
    match k {
        StatusKind::Invalid => &th.red,
        StatusKind::Disabled => &th.dim,
        StatusKind::Limited => &th.yellow,
        StatusKind::Okay => &th.green,
    }
}

/// The color for a cell class.
pub open spec fn cell_color_chars(c: CellClass, th: Theme) -> Seq<char> {
    match c {
        CellClass::Exhausted => th.red@,
        CellClass::Low => th.yellow@,
        CellClass::Healthy => th.green@,
        CellClass::Missing => th.dim@,
    }
}

fn cell_color<'a>(c: CellClass, th: &'a Theme) -> (r: &'a String)
    ensures
        r@ == cell_color_chars(c, *th),
{
    match c {
        CellClass::Exhausted => &th.red,
        CellClass::Low => &th.yellow,
        CellClass::Healthy => &th.green,
        CellClass::Missing => &th.dim,
    }
}

/// The quota entry a cell draws from: the last entry for the model, as
/// the upstream source's map would hold it.
pub open spec fn quota_lookup(entries: Seq<QuotaEntry>, model: Seq<char>) -> Option<Quota>
    decreases entries.len(),
{
    if entries.len() == 0 {
        None
    } else if entries.last().model@ == model {
        Some(entries.last().quota)
    } else {
        quota_lookup(entries.drop_last(), model)
    }
}

/// Finds the quota for a model, matching `quota_lookup`.
pub fn find_quota<'a>(entries: &'a Vec<QuotaEntry>, model: &str) -> (r: Option<&'a Quota>)
    ensures
        match r {
            Some(q) => quota_lookup(entries@, model@) == Some(*q),
            None => quota_lookup(entries@, model@) is None,
        },
{
    let mut found: Option<usize> = None;
    let mut i: usize = 0;
    while i < entries.len()
        invariant
            i <= entries@.len(),
            match found {
                None => quota_lookup(entries@.subrange(0, i as int), model@) is None,
                Some(fi) => fi < i && quota_lookup(entries@.subrange(0, i as int), model@) == Some(
                    entries@[fi as int].quota,
                ),
            },
        decreases entries@.len() - i,
    {
        proof {
            assert(entries@.subrange(0, i + 1).drop_last() =~= entries@.subrange(0, i as int));
            assert(entries@.subrange(0, i + 1).last() == entries@[i as int]);
        }
        if str_eq(entries[i].model.as_str(), model) {
            found = Some(i);
        }
        i = i + 1;
    }
    proof {
        assert(entries@.subrange(0, entries@.len() as int) =~= entries@);
    }
    match found {
        Some(fi) => Some(&entries[fi].quota),
        None => None,
    }
}

/// The rate-limit flag a cell draws from: the last entry for the model.
pub open spec fn rl_lookup(entries: Seq<RateLimitEntry>, model: Seq<char>) -> Option<bool>
    decreases entries.len(),
{
    if entries.len() == 0 {
        None
    } else if entries.last().model@ == model {
        Some(entries.last().is_rate_limited)
    } else {
        rl_lookup(entries.drop_last(), model)
    }
}

/// Whether a model is flagged rate limited for an account; absent means
/// not limited.
pub fn find_rate_limited(entries: &Vec<RateLimitEntry>, model: &str) -> (r: bool)
    ensures
        r == (match rl_lookup(entries@, model@) {
            Some(b) => b,
            None => false,
        }),
{
    let mut found: bool = false;
    let mut i: usize = 0;
    while i < entries.len()
        invariant
            i <= entries@.len(),
            found == (match rl_lookup(entries@.subrange(0, i as int), model@) {
                Some(b) => b,
                None => false,
            }),
        decreases entries@.len() - i,
    {
        proof {
            assert(entries@.subrange(0, i + 1).drop_last() =~= entries@.subrange(0, i as int));
            assert(entries@.subrange(0, i + 1).last() == entries@[i as int]);
        }
        if str_eq(entries[i].model.as_str(), model) {
            found = entries[i].is_rate_limited;
        }
        i = i + 1;
    }
    proof {
        assert(entries@.subrange(0, entries@.len() as int) =~= entries@);
    }
    found
}

/// Whether any entry carries a reset-time text that parses as an RFC
/// 3339 instant.
pub open spec fn has_parsing_reset(entries: Seq<QuotaEntry>) -> bool {
    exists|i: int|
        0 <= i < entries.len() && (match (#[trigger] entries[i]).quota.reset_time {
            Some(x) => rfc3339_millis(x@) is Some,
            None => false,
        })
}

/// Whether `m` is the earliest reset instant among the entries whose
/// reset-time texts parse.
pub open spec fn is_least_reset(entries: Seq<QuotaEntry>, m: int) -> bool {
    &&& (exists|i: int|
        0 <= i < entries.len() && (match (#[trigger] entries[i]).quota.reset_time {
            Some(x) => rfc3339_millis(x@) == Some(m),
            None => false,
        }))
    &&& (forall|i: int|
        0 <= i < entries.len() ==> (match (#[trigger] entries[i]).quota.reset_time {
            Some(x) => match rfc3339_millis(x@) {
                Some(m2) => m <= m2,
                None => true,
            },
            None => true,
        }))
}

/// The reset-time text whose parsed instant is least among those that
/// parse, with that instant, independent of which model is exhausted;
/// nothing where no reset-time text parses.
pub fn earliest_reset<'a>(entries: &'a Vec<QuotaEntry>) -> (r: Option<(&'a String, i64)>)
    ensures
        match r {
            Some(p) => rfc3339_millis(p.0@) == Some(p.1 as int) && is_least_reset(
                entries@,
                p.1 as int,
            ) && (exists|i: int|
                0 <= i < entries@.len() && (match (#[trigger] entries@[i]).quota.reset_time {
                    Some(x) => x@ == p.0@,
                    None => false,
                })),
            None => !has_parsing_reset(entries@),
        },
{
    let mut best: Option<(usize, i64)> = None;
    let mut i: usize = 0;
    while i < entries.len()
        invariant
            i <= entries@.len(),
            match best {
                None => forall|k: int|
                    0 <= k < i ==> (match (#[trigger] entries@[k]).quota.reset_time {
                        Some(x) => rfc3339_millis(x@) is None,
                        None => true,
                    }),
                Some(b) => b.0 < i && (match entries@[b.0 as int].quota.reset_time {
                    Some(x) => rfc3339_millis(x@) == Some(b.1 as int),
                    None => false,
                }) && (forall|k: int|
                    0 <= k < i ==> (match (#[trigger] entries@[k]).quota.reset_time {
                        Some(x) => match rfc3339_millis(x@) {
                            Some(m2) => b.1 <= m2,
                            None => true,
                        },
                        None => true,
                    })),
            },
        decreases entries@.len() - i,
    {
        match &entries[i].quota.reset_time {
            Some(t) => {
                match parse_rfc3339_millis(t.as_str()) {
                    Some(m) => {
                        match best {
                            None => {
                                best = Some((i, m));
                            },
                            Some(b) => {
                                if m < b.1 {
                                    best = Some((i, m));
                                }
                            },
                        }
                    },
                    None => {},
                }
            },
            None => {},
        }
        i = i + 1;
    }
    match best {
        Some(b) => match &entries[b.0].quota.reset_time {
            Some(t) => Some((t, b.1)),
            None => {
                proof {
                    assert(false);
                }
                None
            },
        },
        None => None,
    }
}

/// One account-summary row: four padded columns separated by single
/// spaces, the status column wrapped in its color.
pub open spec fn summary_row_chars(
    email: Seq<char>,
    k: StatusKind,
    label: Seq<char>,
    last_used: Seq<char>,
    reset: Seq<char>,
    th: Theme,
) -> Seq<char> {
    pad_chars(email, 20) + " "@ + color_chars(k, th) + pad_chars(label, 15) + th.reset@ + " "@
        + pad_chars(last_used, 25) + " "@ + pad_chars(reset, 25)
}

/// Assembles one account-summary row from its column texts.
pub fn assemble_summary_row(
    email: &str,
    k: StatusKind,
    label: &str,
    last_used: &str,
    reset: &str,
    th: &Theme,
) -> (r: String)
    ensures
        r@ == summary_row_chars(email@, k, label@, last_used@, reset@, *th),
{
    let mut out = pad_right(email, 20);
    out.append(" ");
    let color = status_color(k, th);
    out.append(color.as_str());
    let pl = pad_right(label, 15);
    out.append(pl.as_str());
    out.append(th.reset.as_str());
    out.append(" ");
    let plu = pad_right(last_used, 25);
    out.append(plu.as_str());
    out.append(" ");
    let pr = pad_right(reset, 25);
    out.append(pr.as_str());
    out
}

/// One colored grid cell: the class's color, the cell text padded to the
/// column width, and the reset sequence.
pub fn grid_cell(q: Option<&Quota>, limited: bool, now_ms: i64, th: &Theme) -> (r: String)
    ensures
        r@ == cell_color_chars(cell_class_of(opt_quota(q), limited), *th) + pad_chars(
            cell_chars(opt_quota(q), limited, now_ms as int),
            20,
        ) + th.reset@,
{
    let class = classify_cell(q, limited);
    let color = cell_color(class, th);
    let mut out = color.clone();
    let text = quota_cell_text(q, limited, now_ms);
    let padded = pad_right(text.as_str(), 20);
    out.append(padded.as_str());
    out.append(th.reset.as_str());
    out
}

/// The rate-limit flag a grid cell uses for a model on an account;
/// absent means not limited.
pub open spec fn rl_flag_of(a: Account, model: Seq<char>) -> bool {
    match rl_lookup(a.rate_limits@, model) {
        Some(b) => b,
        None => false,
    }
}

/// The concatenated colored cells of one grid row, one per account, in
/// account order.
pub open spec fn grid_row_cells(
    model: Seq<char>,
    accounts: Seq<Account>,
    now_ms: int,
    th: Theme,
) -> Seq<char>
    decreases accounts.len(),
{
    if accounts.len() == 0 {
        Seq::<char>::empty()
    } else {
        grid_row_cells(model, accounts.drop_last(), now_ms, th) + cell_color_chars(
            cell_class_of(
                quota_lookup(accounts.last().limits@, model),
                rl_flag_of(accounts.last(), model),
            ),
            th,
        ) + pad_chars(
            cell_chars(
                quota_lookup(accounts.last().limits@, model),
                rl_flag_of(accounts.last(), model),
                now_ms,
            ),
            20,
        ) + th.reset@
    }
}

/// How the last-used column relates to the account: "never" without a
/// timestamp and for instants outside the calendar's range; otherwise the
/// local rendering, which depends on the machine's time zone.
pub open spec fn last_used_text_ok(lu: Seq<char>, a: Account) -> bool {
    match a.last_used {
        None => lu == "never"@,
        Some(ms) => !in_calendar_range(ms) ==> lu == "never"@,
    }
}

/// How the reset column relates to the account's quota entries: "N/A"
/// when no reset-time text parses; "never" when the least instant lies
/// outside the calendar's range; otherwise its local rendering.
pub open spec fn reset_text_ok(rs: Seq<char>, entries: Seq<QuotaEntry>) -> bool {
    &&& (!has_parsing_reset(entries) ==> rs == "N/A"@)
    &&& (forall|m: int|
        #[trigger] is_least_reset(entries, m) && !in_calendar_range(m as u64) ==> rs == "never"@)
}

/// A line that holds one account's summary row: its columns are exact but
/// for the local renderings of the last-used and reset instants, which
/// depend on the machine's time zone; their "never" and "N/A" cases are
/// pinned.
pub open spec fn summary_line_ok(line: String, a: Account, th: Theme) -> bool {
    exists|lu: Seq<char>, rs: Seq<char>|
        line@ == summary_row_chars(
            email_local(a.email@),
            status_of(a),
            label_chars(a),
            lu,
            rs,
            th,
        ) && last_used_text_ok(lu, a) && reset_text_ok(rs, a.limits@)
}

/// The title line: "Account Limits" and a timestamp, decorated.
pub open spec fn title_chars(ts: Seq<char>, th: Theme) -> Seq<char> {
    th.bold@ + th.cyan@ + "Account Limits"@ + th.reset@ + " "@ + th.dim@ + "("@ + ts + ")"@
        + th.reset@
}

/// The summary-count line: the total and the three aggregator buckets.
pub open spec fn stats_chars(
    total: int,
    available: int,
    rate_limited: int,
    invalid: int,
    th: Theme,
) -> Seq<char> {
    "Accounts: "@ + dec_digits(total) + " total, "@ + th.green@ + dec_digits(available)
        + " available"@ + th.reset@ + ", "@ + th.yellow@ + dec_digits(rate_limited)
        + " rate-limited"@ + th.reset@ + ", "@ + th.red@ + dec_digits(invalid) + " invalid"@
        + th.reset@
}

/// The account-table header line.
pub open spec fn table_header_chars(th: Theme) -> Seq<char> {
    th.bold@ + pad_chars("Account"@, 20) + " "@ + pad_chars("Status"@, 15) + " "@ + pad_chars(
        "Last Used"@,
        25,
    ) + " "@ + pad_chars("Quota Reset"@, 25) + th.reset@
}

/// The grid header's account columns: each account's short email, padded,
/// in order.
pub open spec fn grid_header_cols(accounts: Seq<Account>) -> Seq<char>
    decreases accounts.len(),
{
    if accounts.len() == 0 {
        Seq::empty()
    } else {
        grid_header_cols(accounts.drop_last()) + pad_chars(email_local(accounts.last().email@), 20)
    }
}

proof fn lemma_rep_chars_add(c: char, a: int, b: int)
    requires
        a >= 0,
        b >= 0,
    ensures
        rep_chars(c, a + b) == rep_chars(c, a) + rep_chars(c, b),
    decreases b,
{
    if b > 0 {
        lemma_rep_chars_add(c, a, b - 1);
        assert((rep_chars(c, a) + rep_chars(c, b - 1)).push(c) =~= rep_chars(c, a) + rep_chars(
            c,
            b,
        ));
    } else {
        assert(rep_chars(c, a + 0) =~= rep_chars(c, a) + rep_chars(c, 0));
    }
}

/// Renders the whole display: a title line, a summary-count line, a blank
/// line, the account table header, its rule, one row per account, a blank
/// line, the grid header, its rule, and one row per model.
pub fn render_tables(snap: &Snapshot, th: &Theme, now_ms: i64) -> (lines: Vec<String>)
    ensures
        lines@.len() == 8 + snap.accounts@.len() + snap.models@.len(),
        (match snap.timestamp {
            Some(t) => lines@[0]@ == title_chars(t@, *th),
            None => exists|ts: Seq<char>| lines@[0]@ == #[trigger] title_chars(ts, *th),
        }),
        lines@[1]@ == stats_chars(
            snap.accounts@.len() as int,
            count_by(snap.accounts@, (|a: Account| crate::model::agg_available(a))),
            count_by(snap.accounts@, (|a: Account| crate::model::agg_limited(a))),
            count_by(snap.accounts@, (|a: Account| crate::model::agg_invalid(a))),
            *th,
        ),
        lines@[2]@.len() == 0,
        lines@[3]@ == table_header_chars(*th),
        lines@[4]@ == rep_chars('-', 85),
        lines@[5 + snap.accounts@.len() as int]@.len() == 0,
        lines@[6 + snap.accounts@.len() as int]@ == th.bold@ + pad_chars("Model"@, 28)
            + grid_header_cols(snap.accounts@) + th.reset@,
        lines@[7 + snap.accounts@.len() as int]@ == rep_chars(
            '-',
            (28 + 20 * snap.accounts@.len()) as int,
        ),
        forall|k: int|
            0 <= k < snap.accounts@.len() ==> summary_line_ok(
                #[trigger] lines@[5 + k],
                snap.accounts@[k],
                *th,
            ),
        forall|m: int|
            0 <= m < snap.models@.len() ==> (#[trigger] lines@[8 + snap.accounts@.len() + m])@
                == pad_chars(snap.models@[m]@, 28) + grid_row_cells(
                snap.models@[m]@,
                snap.accounts@,
                now_ms as int,
                *th,
            ),
{
    let mut lines: Vec<String> = Vec::new();
    let ts: String = match &snap.timestamp {
        Some(t) => t.clone(),
        None => format_timestamp(
            if now_ms < 0 {
                0u64
            } else {
                now_ms as u64
            },
        ),
    };
    let mut title = th.bold.clone();
    title.append(th.cyan.as_str());
    title.append("Account Limits");
    title.append(th.reset.as_str());
    title.append(" ");
    title.append(th.dim.as_str());
    title.append("(");
    title.append(ts.as_str());
    title.append(")");
    title.append(th.reset.as_str());
    proof {
        assert(title@ =~= title_chars(ts@, *th));
    }
    lines.push(title);
    let (available, rate_limited, invalid) = count_stats(&snap.accounts);
    let total = snap.accounts.len();
    let mut stats = String::from_str("Accounts: ");
    let t0 = u64_to_string(total as u64);
    stats.append(t0.as_str());
    stats.append(" total, ");
    stats.append(th.green.as_str());
    let t1 = u64_to_string(available as u64);
    stats.append(t1.as_str());
    stats.append(" available");
    stats.append(th.reset.as_str());
    stats.append(", ");
    stats.append(th.yellow.as_str());
    let t2 = u64_to_string(rate_limited as u64);
    stats.append(t2.as_str());
    stats.append(" rate-limited");
    stats.append(th.reset.as_str());
    stats.append(", ");
    stats.append(th.red.as_str());
    let t3 = u64_to_string(invalid as u64);
    stats.append(t3.as_str());
    stats.append(" invalid");
    stats.append(th.reset.as_str());
    proof {
        assert(stats@ =~= stats_chars(
            snap.accounts@.len() as int,
            count_by(snap.accounts@, (|a: Account| crate::model::agg_available(a))),
            count_by(snap.accounts@, (|a: Account| crate::model::agg_limited(a))),
            count_by(snap.accounts@, (|a: Account| crate::model::agg_invalid(a))),
            *th,
        ));
    }
    lines.push(stats);
    lines.push(String::new());
    let mut header = th.bold.clone();
    let h0 = pad_right("Account", 20);
    header.append(h0.as_str());
    header.append(" ");
    let h1 = pad_right("Status", 15);
    header.append(h1.as_str());
    header.append(" ");
    let h2 = pad_right("Last Used", 25);
    header.append(h2.as_str());
    header.append(" ");
    let h3 = pad_right("Quota Reset", 25);
    header.append(h3.as_str());
    header.append(th.reset.as_str());
    proof {
        assert(header@ =~= table_header_chars(*th));
    }
    lines.push(header);
    lines.push(repeat_char('-', 85));
    let mut i: usize = 0;
    while i < snap.accounts.len()
        invariant
            i <= snap.accounts@.len(),
            lines@.len() == 5 + i,
            (match snap.timestamp {
                Some(t) => lines@[0]@ == title_chars(t@, *th),
                None => exists|ts: Seq<char>| lines@[0]@ == #[trigger] title_chars(ts, *th),
            }),
            lines@[1]@ == stats_chars(
                snap.accounts@.len() as int,
                count_by(snap.accounts@, (|a: Account| crate::model::agg_available(a))),
                count_by(snap.accounts@, (|a: Account| crate::model::agg_limited(a))),
                count_by(snap.accounts@, (|a: Account| crate::model::agg_invalid(a))),
                *th,
            ),
            lines@[2]@.len() == 0,
            lines@[3]@ == table_header_chars(*th),
            lines@[4]@ == rep_chars('-', 85),
            forall|k: int|
                0 <= k < i ==> summary_line_ok(#[trigger] lines@[5 + k], snap.accounts@[k], *th),
        decreases snap.accounts@.len() - i,
    {
        let a = &snap.accounts[i];
        let email_short = get_short_email(a.email.as_str());
        let k = get_account_status(a);
        let label = status_label(a);
        let lu = match a.last_used {
            Some(ms) => format_timestamp(ms),
            None => String::from_str("never"),
        };
        let er = earliest_reset(&a.limits);
        let reset = match er {
            Some((_, rm)) => format_timestamp(#[verifier::truncate] (rm as u64)),
            None => String::from_str("N/A"),
        };
        proof {
            assert(last_used_text_ok(lu@, snap.accounts@[i as int]));
            let ents = snap.accounts@[i as int].limits@;
            match er {
                Some(p) => {
                    let wi = choose|wi: int|
                        0 <= wi < ents.len() && (match (#[trigger] ents[wi]).quota.reset_time {
                            Some(x) => rfc3339_millis(x@) == Some(p.1 as int),
                            None => false,
                        });
                    assert(match ents[wi].quota.reset_time {
                        Some(x) => rfc3339_millis(x@) is Some,
                        None => false,
                    });
                    assert(has_parsing_reset(ents));
                    assert forall|m: int|
                        #[trigger] is_least_reset(ents, m) && !in_calendar_range(
                            m as u64,
                        ) implies reset@ == "never"@ by {
                        let wj = choose|wj: int|
                            0 <= wj < ents.len() && (match (#[trigger] ents[wj]).quota.reset_time {
                                Some(x) => rfc3339_millis(x@) == Some(m),
                                None => false,
                            });
                        assert(m <= p.1 as int);
                        assert(p.1 as int <= m);
                        assert(m == p.1 as int);
                    }
                },
                None => {
                    assert forall|m: int|
                        #[trigger] is_least_reset(ents, m) && !in_calendar_range(
                            m as u64,
                        ) implies reset@ == "never"@ by {
                        let wj = choose|wj: int|
                            0 <= wj < ents.len() && (match (#[trigger] ents[wj]).quota.reset_time {
                                Some(x) => rfc3339_millis(x@) == Some(m),
                                None => false,
                            });
                        assert(match ents[wj].quota.reset_time {
                            Some(x) => rfc3339_millis(x@) is Some,
                            None => false,
                        });
                        assert(has_parsing_reset(ents));
                        assert(false);
                    }
                },
            }
            assert(reset_text_ok(reset@, snap.accounts@[i as int].limits@));
        }
        let row = assemble_summary_row(
            email_short,
            k,
            label.as_str(),
            lu.as_str(),
            reset.as_str(),
            th,
        );
        proof {
            assert(row@ == summary_row_chars(
                email_local(snap.accounts@[i as int].email@),
                status_of(snap.accounts@[i as int]),
                label_chars(snap.accounts@[i as int]),
                lu@,
                reset@,
                *th,
            ));
            assert(summary_line_ok(row, snap.accounts@[i as int], *th));
        }
        lines.push(row);
        i = i + 1;
    }
    lines.push(String::new());
    let mut grid_header = th.bold.clone();
    let gm = pad_right("Model", 28);
    grid_header.append(gm.as_str());
    proof {
        assert(grid_header@ =~= th.bold@ + pad_chars("Model"@, 28) + grid_header_cols(
            snap.accounts@.subrange(0, 0),
        ));
    }
    let mut j: usize = 0;
    while j < snap.accounts.len()
        invariant
            j <= snap.accounts@.len(),
            grid_header@ == th.bold@ + pad_chars("Model"@, 28) + grid_header_cols(
                snap.accounts@.subrange(0, j as int),
            ),
        decreases snap.accounts@.len() - j,
    {
        let short = get_short_email(snap.accounts[j].email.as_str());
        let ps = pad_right(short, 20);
        grid_header.append(ps.as_str());
        proof {
            assert(snap.accounts@.subrange(0, j + 1).drop_last() =~= snap.accounts@.subrange(
                0,
                j as int,
            ));
            assert(snap.accounts@.subrange(0, j + 1).last() == snap.accounts@[j as int]);
            assert(grid_header@ =~= th.bold@ + pad_chars("Model"@, 28) + grid_header_cols(
                snap.accounts@.subrange(0, j + 1),
            ));
        }
        j = j + 1;
    }
    grid_header.append(th.reset.as_str());
    proof {
        assert(snap.accounts@.subrange(0, snap.accounts@.len() as int) =~= snap.accounts@);
    }
    lines.push(grid_header);
    let mut rule = repeat_char('-', 28);
    let mut j2: usize = 0;
    while j2 < snap.accounts.len()
        invariant
            j2 <= snap.accounts@.len(),
            rule@ == rep_chars('-', 28 + 20 * j2),
        decreases snap.accounts@.len() - j2,
    {
        let d20 = repeat_char('-', 20);
        rule.append(d20.as_str());
        proof {
            lemma_rep_chars_add('-', 28 + 20 * (j2 as int), 20);
        }
        j2 = j2 + 1;
    }
    lines.push(rule);
    let mut m: usize = 0;
    while m < snap.models.len()
        invariant
            m <= snap.models@.len(),
            lines@.len() == 8 + snap.accounts@.len() + m,
            (match snap.timestamp {
                Some(t) => lines@[0]@ == title_chars(t@, *th),
                None => exists|ts: Seq<char>| lines@[0]@ == #[trigger] title_chars(ts, *th),
            }),
            lines@[1]@ == stats_chars(
                snap.accounts@.len() as int,
                count_by(snap.accounts@, (|a: Account| crate::model::agg_available(a))),
                count_by(snap.accounts@, (|a: Account| crate::model::agg_limited(a))),
                count_by(snap.accounts@, (|a: Account| crate::model::agg_invalid(a))),
                *th,
            ),
            lines@[2]@.len() == 0,
            lines@[3]@ == table_header_chars(*th),
            lines@[4]@ == rep_chars('-', 85),
            lines@[5 + snap.accounts@.len() as int]@.len() == 0,
            lines@[6 + snap.accounts@.len() as int]@ == th.bold@ + pad_chars("Model"@, 28)
                + grid_header_cols(snap.accounts@) + th.reset@,
            lines@[7 + snap.accounts@.len() as int]@ == rep_chars(
                '-',
                (28 + 20 * snap.accounts@.len()) as int,
            ),
            forall|k: int|
                0 <= k < snap.accounts@.len() ==> summary_line_ok(
                    #[trigger] lines@[5 + k],
                    snap.accounts@[k],
                    *th,
                ),
            forall|m2: int|
                0 <= m2 < m ==> (#[trigger] lines@[8 + snap.accounts@.len() + m2])@ == pad_chars(
                    snap.models@[m2]@,
                    28,
                ) + grid_row_cells(snap.models@[m2]@, snap.accounts@, now_ms as int, *th),
        decreases snap.models@.len() - m,
    {
        let model = &snap.models[m];
        let mut row = pad_right(model.as_str(), 28);
        let mut c: usize = 0;
        while c < snap.accounts.len()
            invariant
                c <= snap.accounts@.len(),
                *model == snap.models@[m as int],
                m < snap.models@.len(),
                row@ == pad_chars(snap.models@[m as int]@, 28) + grid_row_cells(
                    snap.models@[m as int]@,
                    snap.accounts@.subrange(0, c as int),
                    now_ms as int,
                    *th,
                ),
            decreases snap.accounts@.len() - c,
        {
            let a = &snap.accounts[c];
            let q = find_quota(&a.limits, model.as_str());
            let lim = find_rate_limited(&a.rate_limits, model.as_str());
            let cell = grid_cell(q, lim, now_ms, th);
            proof {
                assert(opt_quota(q) == quota_lookup(
                    snap.accounts@[c as int].limits@,
                    snap.models@[m as int]@,
                ));
                assert(lim == rl_flag_of(snap.accounts@[c as int], snap.models@[m as int]@));
            }
            row.append(cell.as_str());
            proof {
                assert(snap.accounts@.subrange(0, c + 1).drop_last() =~= snap.accounts@.subrange(
                    0,
                    c as int,
                ));
                assert(snap.accounts@.subrange(0, c + 1).last() == snap.accounts@[c as int]);
                assert(row@ =~= pad_chars(snap.models@[m as int]@, 28) + grid_row_cells(
                    snap.models@[m as int]@,
                    snap.accounts@.subrange(0, c + 1),
                    now_ms as int,
                    *th,
                ));
            }
            c = c + 1;
        }
        proof {
            assert(snap.accounts@.subrange(0, snap.accounts@.len() as int) =~= snap.accounts@);
        }
        lines.push(row);
        m = m + 1;
    }
    lines
}

} // verus!

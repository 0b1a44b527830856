use vstd::prelude::*;
use vstd::string::*;
use crate::amount::Amount;
use crate::billing::CostError;
use crate::format::{cost_text, format_cost, source_text};
use crate::ranking::{
    CostEntry, compute_total, lemma_ranked, lemma_top_entries_idempotent, lemma_top_entries_shape, rank_top,
    ranked, top_entries, total_units,
};
use crate::text::{cents_text, digit_char, fit_label, int_text, label_column, nat_text, two_places_text};

verus! {

/// How many services the report ranks.
pub const DISPLAY_COUNT: usize = 5;

/// The ranking line of one entry, or nothing for an entry without a label or a cost.
pub open spec fn ranking_line(e: CostEntry, rate: Amount) -> Seq<char> {
    match (e.label, e.amount) {
        (Some(l), Some(a)) => label_column(l@) + seq![':', ' ', ' '] + cost_text(a, rate) + seq!['\n'],
        _ => Seq::<char>::empty(),
    }
}

/// The lines of all entries, in order.
pub open spec fn ranking_lines(s: Seq<CostEntry>, rate: Amount) -> Seq<char>
    decreases s.len(),
{
    if s.len() == 0 {
        Seq::<char>::empty()
    } else {
        ranking_lines(s.drop_last(), rate) + ranking_line(s.last(), rate)
    }
}

/// The ranking of the `n` most expensive entries, fenced as a code block.
pub open spec fn ranking_block(entries: Seq<CostEntry>, rate: Amount, n: nat) -> Seq<char> {
    "```\n"@ + ranking_lines(top_entries(entries, n), rate) + "\n```"@
}

/// The report: cost two days ago, a separator, month-to-date cost, forecast, then the ranking.
pub open spec fn report_text(
    total: Seq<char>,
    month_to_date: Seq<char>,
    forecast: Seq<char>,
    ranking: Seq<char>,
) -> Seq<char> {
    "前々日料金:"@ + total + "\n--------------\n現時点料金:"@ + month_to_date + "\n今月の予測:"@
        + forecast + "\n■前々日の料金ランキング\n"@ + ranking + "\n"@
}

/// Renders the `display_count` most expensive entries, one line each: the name fitted
/// to its column, `":  "`, and the cost in both currencies. Entries without a name or
/// a cost are left out. The lines are fenced with three backticks.
pub fn build_service_ranking(entries: Vec<CostEntry>, rate: Amount, display_count: usize) -> (r:
    String)
    ensures
        r@ == ranking_block(entries@, rate, display_count as nat),
{
    let top = rank_top(entries, display_count);
    let mut s = String::from_str("```\n");
    let mut i: usize = 0;
    while i < top.len()
        invariant
            i <= top@.len(),
            s@ == "```\n"@ + ranking_lines(top@.take(i as int), rate),
        decreases top@.len() - i,
    {
        let e = &top[i];
        proof {
            assert(top@.take(i + 1).drop_last() =~= top@.take(i as int));
        }
        match (&e.label, &e.amount) {
            (Some(l), Some(a)) => {
                let column = fit_label(l.as_str());
                let cost = format_cost(*a, rate);
                proof {
                    reveal_strlit(":  ");
                    reveal_strlit("\n");
                }
                let old_s = Ghost(s@);
                s.append(column.as_str());
                s.append(":  ");
                s.append(cost.as_str());
                s.append("\n");
                proof {
                    assert(s@ =~= old_s@ + ranking_line(top@[i as int], rate));
                }
            },
            _ => {
                proof {
                    assert(ranking_line(top@[i as int], rate) =~= Seq::<char>::empty());
                }
            },
        }
        proof {
            assert(s@ =~= "```\n"@ + ranking_lines(top@.take(i + 1), rate));
        }
        i = i + 1;
    }
    proof {
        assert(top@.take(i as int) =~= top@);
    }
    s.append("\n```");
    s
}

/// Assembles the report from the four rendered parts.
pub fn build_report(total: &str, month_to_date: &str, forecast: &str, ranking: &str) -> (r: String)
    ensures
        r@ == report_text(total@, month_to_date@, forecast@, ranking@),
{
    let mut s = String::from_str("前々日料金:");
    s.append(total);
    s.append("\n--------------\n現時点料金:");
    s.append(month_to_date);
    s.append("\n今月の予測:");
    s.append(forecast);
    s.append("\n■前々日の料金ランキング\n");
    s.append(ranking);
    s.append("\n");
    s
}

/// Identical parts always give a byte-identical report.
pub proof fn lemma_report_deterministic(
    t1: Seq<char>,
    m1: Seq<char>,
    f1: Seq<char>,
    k1: Seq<char>,
    t2: Seq<char>,
    m2: Seq<char>,
    f2: Seq<char>,
    k2: Seq<char>,
)
    requires
        t1 == t2,
        m1 == m2,
        f1 == f2,
        k1 == k2,
    ensures
        report_text(t1, m1, f1, k1) == report_text(t2, m2, f2, k2),
{
}

/// Rendering the ranking of the top entries gives the same block as rendering the
/// ranking of all entries.
pub proof fn lemma_ranking_block_of_top(entries: Seq<CostEntry>, rate: Amount, n: nat)
    ensures
        ranking_block(top_entries(entries, n), rate, n) == ranking_block(entries, rate, n),
{
    lemma_top_entries_idempotent(entries, n);
}

/// How many line breaks a text holds.
pub open spec fn newline_count(s: Seq<char>) -> nat
    decreases s.len(),
{
    if s.len() == 0 {
        0
    } else {
        newline_count(s.drop_last()) + if s.last() == '\n' { 1nat } else { 0nat }
    }
}

pub open spec fn no_newline(s: Seq<char>) -> bool {
    forall|i: int| 0 <= i < s.len() ==> s[i] != '\n'
}

/// Every entry has a cost and a single-line label, so each gets a ranking line.
pub open spec fn fully_listed(s: Seq<CostEntry>) -> bool {
    forall|i: int| 0 <= i < s.len() ==> listed(#[trigger] s[i])
}

/// The entry has a cost and a label without line breaks.
pub open spec fn listed(e: CostEntry) -> bool {
    e.amount is Some && (e.label matches Some(l) && no_newline(l@))
}

proof fn lemma_count_concat(a: Seq<char>, b: Seq<char>)
    ensures
        newline_count(a + b) == newline_count(a) + newline_count(b),
    decreases b.len(),
{
    if b.len() == 0 {
        assert(a + b =~= a);
    } else {
        lemma_count_concat(a, b.drop_last());
        assert((a + b).drop_last() =~= a + b.drop_last());
    }
}

proof fn lemma_count_free(s: Seq<char>)
    requires
        no_newline(s),
    ensures
        newline_count(s) == 0,
    decreases s.len(),
{
    if s.len() > 0 {
        lemma_count_free(s.drop_last());
    }
}

proof fn lemma_count_one_newline()
    ensures
        newline_count(seq!['\n']) == 1,
{
    reveal_with_fuel(newline_count, 2);
    assert(seq!['\n'].drop_last() =~= Seq::<char>::empty());
}

proof fn lemma_digit_not_newline(d: int)
    ensures
        digit_char(d) != '\n',
{
}

proof fn lemma_nat_text_free(n: nat)
    ensures
        no_newline(nat_text(n)),
    decreases n,
{
    lemma_digit_not_newline((n % 10) as int);
    lemma_digit_not_newline(n as int);
    if n >= 10 {
        lemma_nat_text_free(n / 10);
    }
}

proof fn lemma_cost_text_free(a: Amount, rate: Amount)
    ensures
        no_newline(cost_text(a, rate)),
{
    let t = crate::format::target_units(a, rate);
    let c = crate::format::source_cents(a);
    lemma_nat_text_free((if t < 0 { -t } else { t }) as nat);
    let cm = if c < 0 { -c } else { c };
    lemma_nat_text_free((cm / 100) as nat);
    lemma_digit_not_newline(cm % 100 / 10);
    lemma_digit_not_newline(cm % 100 % 10);
    assert(no_newline(int_text(t)));
    assert(no_newline(cents_text(c)));
    let m = if a.units < 0 { -a.units } else { a.units as int };
    let q = crate::format::round_half_even(m, 1_000_000) as nat;
    lemma_nat_text_free(q / 100);
    lemma_digit_not_newline(((q / 10) % 10) as int);
    lemma_digit_not_newline((q % 10) as int);
    assert(no_newline(two_places_text(q)));
    assert(no_newline(source_text(a)));
}

proof fn lemma_lines_count(s: Seq<CostEntry>, rate: Amount)
    requires
        fully_listed(s),
    ensures
        newline_count(ranking_lines(s, rate)) == s.len(),
    decreases s.len(),
{
    if s.len() > 0 {
        let d = s.drop_last();
        assert(fully_listed(d)) by {
            assert forall|i: int| 0 <= i < d.len() implies listed(#[trigger] d[i]) by {
                assert(d[i] == s[i]);
            }
        }
        lemma_lines_count(d, rate);
        let e = s.last();
        assert(listed(s[s.len() - 1]));
        let l = e.label->Some_0;
        let a = e.amount->Some_0;
        let column = label_column(l@);
        assert(no_newline(column));
        lemma_cost_text_free(a, rate);
        let body = column + seq![':', ' ', ' '] + cost_text(a, rate);
        assert(no_newline(body));
        lemma_count_free(body);
        lemma_count_concat(body, seq!['\n']);
        lemma_count_one_newline();
        assert(ranking_line(e, rate) == body + seq!['\n']);
        lemma_count_concat(ranking_lines(d, rate), ranking_line(e, rate));
    }
}

/// When every entry has a cost and a single-line label, the fenced ranking holds
/// one line per ranked entry, `min(n, len)` of them, between the fences: its text
/// has exactly `min(n, len) + 2` line breaks.
pub proof fn lemma_ranking_block_lines(entries: Seq<CostEntry>, rate: Amount, n: nat)
    requires
        fully_listed(entries),
    ensures
        newline_count(ranking_block(entries, rate, n)) == (if n <= entries.len() {
            n
        } else {
            entries.len()
        }) + 2,
{
    broadcast use vstd::seq_lib::group_to_multiset_ensures;

    let t = top_entries(entries, n);
    lemma_top_entries_shape(entries, n);
    lemma_ranked(entries);
    assert(fully_listed(t)) by {
        assert forall|i: int| 0 <= i < t.len() implies listed(#[trigger] t[i]) by {
            let x = t[i];
            assert(x == ranked(entries)[i]);
            assert(ranked(entries).contains(x));
            assert(ranked(entries).to_multiset().count(x) > 0);
            assert(entries.contains(x));
            let j = choose|j: int| 0 <= j < entries.len() && entries[j] == x;
            assert(entries[j] == x);
        }
    }
    lemma_lines_count(t, rate);
    reveal_strlit("```\n");
    reveal_strlit("\n```");
    let open = "```\n"@;
    let close = "\n```"@;
    let fence = seq!['`', '`', '`'];
    assert(open =~= fence + seq!['\n']);
    assert(close =~= seq!['\n'] + fence);
    lemma_count_free(fence);
    lemma_count_one_newline();
    lemma_count_concat(fence, seq!['\n']);
    lemma_count_concat(seq!['\n'], fence);
    assert(newline_count(open) == 1);
    assert(newline_count(close) == 1);
    lemma_count_concat(open, ranking_lines(t, rate));
    lemma_count_concat(open + ranking_lines(t, rate), close);
}

/// Whether the services' total can be held as an amount.
pub open spec fn total_fits(services: Seq<CostEntry>) -> bool {
    i64::MIN <= total_units(services) <= i64::MAX
}

/// The report for one run's figures, the total being that of the services.
pub open spec fn run_report_text(
    rate: Amount,
    services: Seq<CostEntry>,
    month_to_date: Amount,
    forecast: Amount,
) -> Seq<char> {
    let total = Amount { units: total_units(services) as i64 };
    report_text(
        cost_text(total, rate),
        cost_text(month_to_date, rate),
        cost_text(forecast, rate),
        ranking_block(services, rate, DISPLAY_COUNT as nat),
    )
}

/// The whole report for one run: the services' total, month-to-date cost and
/// forecast in both currencies, and the ranking of the most expensive services.
/// Fails with `AmountOutOfRange` exactly when the services' total does not fit an amount.
pub fn compose_report(
    rate: Amount,
    services: Vec<CostEntry>,
    month_to_date: Amount,
    forecast: Amount,
) -> (r: Result<String, CostError>)
    ensures
        match r {
            Ok(text) => total_fits(services@) && text@ == run_report_text(
                rate,
                services@,
                month_to_date,
                forecast,
            ),
            Err(e) => !total_fits(services@) && e == CostError::AmountOutOfRange,
        },
{
    let total = match compute_total(&services) {
        Some(t) => t,
        None => {
            return Err(CostError::AmountOutOfRange);
        },
    };
    let total_text = format_cost(total, rate);
    let month_text = format_cost(month_to_date, rate);
    let forecast_text = format_cost(forecast, rate);
    let ranking = build_service_ranking(services, rate, DISPLAY_COUNT);
    Ok(build_report(total_text.as_str(), month_text.as_str(), forecast_text.as_str(), ranking.as_str()))
}

/// Two runs on identical fetched figures give the same report, byte for byte: the
/// report depends on nothing but those figures.
pub proof fn lemma_run_report_deterministic(
    rate: Amount,
    services1: Seq<CostEntry>,
    services2: Seq<CostEntry>,
    month_to_date: Amount,
    forecast: Amount,
)
    requires
        services1 == services2,
    ensures
        total_fits(services1) == total_fits(services2),
        run_report_text(rate, services1, month_to_date, forecast) == run_report_text(
            rate,
            services2,
            month_to_date,
            forecast,
        ),
{
}

/// One run from the fetched results, in the order they are needed: the rate, the
/// per-service breakdown, the forecast and the month-to-date cost. The first failure
/// aborts the run and no report is produced; otherwise the report is composed.
pub fn run_report(
    rate: Result<Amount, CostError>,
    services: Result<Vec<CostEntry>, CostError>,
    forecast: Result<Amount, CostError>,
    month_to_date: Result<Amount, CostError>,
) -> (r: Result<String, CostError>)
    ensures
        rate is Err ==> r == Err::<String, CostError>(rate->Err_0),
        rate is Ok && services is Err ==> r == Err::<String, CostError>(services->Err_0),
        rate is Ok && services is Ok && forecast is Err ==> r == Err::<String, CostError>(
            forecast->Err_0,
        ),
        rate is Ok && services is Ok && forecast is Ok && month_to_date is Err ==> r == Err::<
            String,
            CostError,
        >(month_to_date->Err_0),
        rate is Ok && services is Ok && forecast is Ok && month_to_date is Ok ==> match r {
            Ok(text) => total_fits(services->Ok_0@) && text@ == run_report_text(
                rate->Ok_0,
                services->Ok_0@,
                month_to_date->Ok_0,
                forecast->Ok_0,
            ),
            Err(e) => !total_fits(services->Ok_0@) && e == CostError::AmountOutOfRange,
        },
{
    let rate = rate?;
    let services = services?;
    let forecast = forecast?;
    let month_to_date = month_to_date?;
    compose_report(rate, services, month_to_date, forecast)
}

} // verus!

//! The computed result for one organization at one point in time: the
//! first two currency tokens of its page, their amounts, and the
//! progress made towards the goal, stamped with the moment and the URL
//! of the fetch.

use vstd::prelude::*;
use vstd::string::StringExecFns;
use crate::extract::extract_raised_goal;
use crate::extract::goal_text_of;
use crate::extract::match_texts;
use crate::extract::raised_text_of;
use crate::extract::spec_matches;
use crate::money::Money;
use crate::money::Percent;
use crate::money::decimal_shape;
use crate::money::digit_count;
use crate::money::dot_count;
use crate::money::mantissa_of;
use crate::money::money_zero;
use crate::money::parse_money;
use crate::money::percent_zero;
use crate::money::pow10;
use crate::money::progress_percent;
use crate::money::scale_of;
use crate::money::spec_parse_money;
use crate::money::spec_progress;
use crate::money::stripped;

verus! {

/// What a snapshot holds, field by field, as mathematical values.
pub ghost struct SnapshotView {
    pub raised_text: Seq<char>,
    pub goal_text: Seq<char>,
    pub raised: Money,
    pub goal: Money,
    pub progress_percent: Percent,
    pub fetched_at: Seq<char>,
    pub source_url: Seq<char>,
}

/// The donation-progress result computed from one fetched page,
/// immutable once constructed.
pub struct DonationSnapshot {
    /// The first currency token of the page, or `"$0"`.
    pub raised_text: String,
    /// The second currency token of the page, or `"$0"`.
    pub goal_text: String,
    /// The amount parsed from `raised_text`.
    pub raised: Money,
    /// The amount parsed from `goal_text`.
    pub goal: Money,
    /// `raised / goal * 100`, exactly; zero when the goal is zero.
    pub progress_percent: Percent,
    /// When this snapshot was computed, in RFC 3339 form.
    pub fetched_at: String,
    /// The exact URL fetched to produce this snapshot.
    pub source_url: String,
}

impl View for DonationSnapshot {
    type V = SnapshotView;

    open spec fn view(&self) -> SnapshotView {
        SnapshotView {
            raised_text: self.raised_text@,
            goal_text: self.goal_text@,
            raised: self.raised,
            goal: self.goal,
            progress_percent: self.progress_percent,
            fetched_at: self.fetched_at@,
            source_url: self.source_url@,
        }
    }
}

impl Clone for DonationSnapshot {
    fn clone(&self) -> (r: Self)
        ensures
            r == *self,
    {
        DonationSnapshot {
            raised_text: self.raised_text.clone(),
            goal_text: self.goal_text.clone(),
            raised: self.raised,
            goal: self.goal,
            progress_percent: self.progress_percent,
            fetched_at: self.fetched_at.clone(),
            source_url: self.source_url.clone(),
        }
    }
}

/// The snapshot a page text yields: the first two tokens and their
/// amounts, the progress they give, and the stamp and URL handed in.
pub open spec fn spec_snapshot(page: Seq<char>, fetched_at: Seq<char>, url: Seq<char>)
    -> SnapshotView {
    let raised = spec_parse_money(raised_text_of(page));
    let goal = spec_parse_money(goal_text_of(page));
    SnapshotView {
        raised_text: raised_text_of(page),
        goal_text: goal_text_of(page),
        raised,
        goal,
        progress_percent: spec_progress(raised, goal),
        fetched_at,
        source_url: url,
    }
}

/// Compute the snapshot of a page: extract the raised and goal tokens,
/// parse them, and derive the progress.  Never fails, whatever the page
/// holds.
pub fn build_snapshot(page: &str, fetched_at: String, source_url: String) -> (snap:
    DonationSnapshot)
    ensures
        snap@ == spec_snapshot(page@, fetched_at@, source_url@),
{
    let texts = extract_raised_goal(page);
    let raised = parse_money(texts.0.as_str());
    let goal = parse_money(texts.1.as_str());
    let progress = progress_percent(raised, goal);
    DonationSnapshot {
        raised_text: texts.0,
        goal_text: texts.1,
        raised,
        goal,
        progress_percent: progress,
        fetched_at,
        source_url,
    }
}

/// The fixed template the page of an organization is fetched from; the
/// identifier is substituted verbatim at its end.
pub open spec fn url_prefix() -> Seq<char> {
    "https://hcb.hackclub.com/donations/start/"@
}

/// The URL fetched for an organization: the fixed template with the
/// identifier appended.
pub fn source_url_for(org_id: &str) -> (u: String)
    ensures
        u@ == url_prefix() + org_id@,
{
    let mut u = String::from_str("https://hcb.hackclub.com/donations/start/");
    u.append(org_id);
    u
}

/// Relies on `chrono::Utc::now` and `chrono::DateTime::to_rfc3339`: the
/// moment of the call rendered in RFC 3339 form.  The result depends on
/// the clock, so nothing is claimed of it.
#[verifier::external_body]
pub(crate) fn now_rfc3339() -> String {
    chrono::Utc::now().to_rfc3339()
}

proof fn lemma_parse_dollar_zero()
    ensures
        spec_parse_money("$0"@) == money_zero(),
{
    reveal_strlit("$0");
    let s = "$0"@;
    assert(s =~= seq!['$', '0']);
    assert(s.drop_last() =~= seq!['$']);
    assert(seq!['$'].drop_last() =~= Seq::<char>::empty());
    assert(stripped(Seq::<char>::empty()) =~= Seq::<char>::empty());
    assert(stripped(seq!['$']) =~= Seq::<char>::empty());
    let t = seq!['0'];
    assert(stripped(s) =~= t);
    assert(t.drop_last() =~= Seq::<char>::empty());
    assert(dot_count(Seq::<char>::empty()) == 0);
    assert(digit_count(Seq::<char>::empty()) == 0);
    assert(mantissa_of(Seq::<char>::empty()) == 0);
    assert(dot_count(t) == 0);
    assert(digit_count(t) == 1);
    assert(decimal_shape(t));
    assert(mantissa_of(t) == 0);
    assert(scale_of(t) == 0);
}

proof fn lemma_parse_dollar_250()
    ensures
        spec_parse_money("$250"@) == (Money { mantissa: 250, scale: 0 }),
{
    reveal_strlit("$250");
    let s = "$250"@;
    assert(s =~= seq!['$', '2', '5', '0']);
    let s1 = seq!['$'];
    let s2 = seq!['$', '2'];
    let s3 = seq!['$', '2', '5'];
    assert(s1.drop_last() =~= Seq::<char>::empty());
    assert(s2.drop_last() =~= s1);
    assert(s3.drop_last() =~= s2);
    assert(s.drop_last() =~= s3);
    assert(stripped(Seq::<char>::empty()) =~= Seq::<char>::empty());
    assert(stripped(s1) =~= Seq::<char>::empty());
    assert(stripped(s2) =~= seq!['2']);
    assert(stripped(s3) =~= seq!['2', '5']);
    let t = seq!['2', '5', '0'];
    assert(stripped(s) =~= t);
    let t1 = seq!['2'];
    let t2 = seq!['2', '5'];
    assert(t1.drop_last() =~= Seq::<char>::empty());
    assert(t2.drop_last() =~= t1);
    assert(t.drop_last() =~= t2);
    assert(dot_count(Seq::<char>::empty()) == 0);
    assert(digit_count(Seq::<char>::empty()) == 0);
    assert(mantissa_of(Seq::<char>::empty()) == 0);
    assert(dot_count(t1) == 0);
    assert(dot_count(t2) == 0);
    assert(dot_count(t) == 0);
    assert(digit_count(t1) == 1);
    assert(digit_count(t2) == 2);
    assert(digit_count(t) == 3);
    assert(decimal_shape(t));
    assert(mantissa_of(t1) == 2);
    assert(mantissa_of(t2) == 25);
    assert(mantissa_of(t) == 250);
    assert(scale_of(t) == 0);
}

proof fn lemma_parse_dollar_1000()
    ensures
        spec_parse_money("$1,000"@) == (Money { mantissa: 1000, scale: 0 }),
{
    reveal_strlit("$1,000");
    let s = "$1,000"@;
    assert(s =~= seq!['$', '1', ',', '0', '0', '0']);
    let s1 = seq!['$'];
    let s2 = seq!['$', '1'];
    let s3 = seq!['$', '1', ','];
    let s4 = seq!['$', '1', ',', '0'];
    let s5 = seq!['$', '1', ',', '0', '0'];
    assert(s1.drop_last() =~= Seq::<char>::empty());
    assert(s2.drop_last() =~= s1);
    assert(s3.drop_last() =~= s2);
    assert(s4.drop_last() =~= s3);
    assert(s5.drop_last() =~= s4);
    assert(s.drop_last() =~= s5);
    assert(stripped(Seq::<char>::empty()) =~= Seq::<char>::empty());
    assert(stripped(s1) =~= Seq::<char>::empty());
    assert(stripped(s2) =~= seq!['1']);
    assert(stripped(s3) =~= seq!['1']);
    assert(stripped(s4) =~= seq!['1', '0']);
    assert(stripped(s5) =~= seq!['1', '0', '0']);
    let t = seq!['1', '0', '0', '0'];
    assert(stripped(s) =~= t);
    let t1 = seq!['1'];
    let t2 = seq!['1', '0'];
    let t3 = seq!['1', '0', '0'];
    assert(t1.drop_last() =~= Seq::<char>::empty());
    assert(t2.drop_last() =~= t1);
    assert(t3.drop_last() =~= t2);
    assert(t.drop_last() =~= t3);
    assert(dot_count(Seq::<char>::empty()) == 0);
    assert(digit_count(Seq::<char>::empty()) == 0);
    assert(mantissa_of(Seq::<char>::empty()) == 0);
    assert(dot_count(t1) == 0);
    assert(dot_count(t2) == 0);
    assert(dot_count(t3) == 0);
    assert(dot_count(t) == 0);
    assert(digit_count(t1) == 1);
    assert(digit_count(t2) == 2);
    assert(digit_count(t3) == 3);
    assert(digit_count(t) == 4);
    assert(decimal_shape(t));
    assert(mantissa_of(t1) == 1);
    assert(mantissa_of(t2) == 10);
    assert(mantissa_of(t3) == 100);
    assert(mantissa_of(t) == 1000);
    assert(scale_of(t) == 0);
}

/// Law: a page without a single currency token yields the defaults —
/// both texts are `"$0"`, both amounts are zero, and the progress is
/// zero.
pub proof fn lemma_no_tokens_defaults(page: Seq<char>, fetched_at: Seq<char>, url: Seq<char>)
    requires
        spec_matches(page, 0).len() == 0,
    ensures
        spec_snapshot(page, fetched_at, url).raised_text == "$0"@,
        spec_snapshot(page, fetched_at, url).goal_text == "$0"@,
        spec_snapshot(page, fetched_at, url).raised == money_zero(),
        spec_snapshot(page, fetched_at, url).goal == money_zero(),
        spec_snapshot(page, fetched_at, url).progress_percent == percent_zero(),
{
    reveal_strlit("$0");
    assert(match_texts(page).len() == 0);
    assert(raised_text_of(page) =~= "$0"@);
    assert(goal_text_of(page) =~= "$0"@);
    lemma_parse_dollar_zero();
}

/// Law: a page with exactly one currency token, `"$500"`, takes it as
/// the raised text, defaults the goal text to `"$0"`, and reports zero
/// progress, the goal amount being zero.
pub proof fn lemma_single_token_defaults_goal(
    page: Seq<char>,
    fetched_at: Seq<char>,
    url: Seq<char>,
)
    requires
        spec_matches(page, 0).len() == 1,
        match_texts(page)[0] == "$500"@,
    ensures
        spec_snapshot(page, fetched_at, url).raised_text == "$500"@,
        spec_snapshot(page, fetched_at, url).goal_text == "$0"@,
        spec_snapshot(page, fetched_at, url).goal == money_zero(),
        spec_snapshot(page, fetched_at, url).progress_percent == percent_zero(),
{
    reveal_strlit("$0");
    assert(match_texts(page).len() == 1);
    assert(goal_text_of(page) =~= "$0"@);
    lemma_parse_dollar_zero();
}

/// Law: a page whose tokens are `"$250"` and then `"$1,000"` reports
/// 250 raised towards a goal of 1000, and a progress of exactly 25
/// percent.
pub proof fn lemma_two_tokens_quarter_progress(
    page: Seq<char>,
    fetched_at: Seq<char>,
    url: Seq<char>,
)
    requires
        spec_matches(page, 0).len() == 2,
        match_texts(page)[0] == "$250"@,
        match_texts(page)[1] == "$1,000"@,
    ensures
        spec_snapshot(page, fetched_at, url).raised == (Money { mantissa: 250, scale: 0 }),
        spec_snapshot(page, fetched_at, url).goal == (Money { mantissa: 1000, scale: 0 }),
        spec_snapshot(page, fetched_at, url).progress_percent == (Percent {
            num: 25000,
            den: 1000,
        }),
        spec_snapshot(page, fetched_at, url).progress_percent.num == 25 * spec_snapshot(
            page,
            fetched_at,
            url,
        ).progress_percent.den,
{
    assert(match_texts(page).len() == 2);
    lemma_parse_dollar_250();
    lemma_parse_dollar_1000();
    let raised = Money { mantissa: 250, scale: 0 };
    let goal = Money { mantissa: 1000, scale: 0 };
    assert(pow10(0) == 1);
    assert(spec_progress(raised, goal) == (Percent { num: 25000, den: 1000 }));
}

/// Compute the snapshot of a freshly fetched page for an organization,
/// stamped with the present moment.  Every field but the stamp is a
/// function of the page and the identifier alone.
pub fn compute_snapshot(page: &str, org_id: &str) -> (snap: DonationSnapshot)
    ensures
        snap@ == spec_snapshot(page@, snap@.fetched_at, url_prefix() + org_id@),
{
    let url = source_url_for(org_id);
    let fetched_at = now_rfc3339();
    build_snapshot(page, fetched_at, url)
}

} // verus!

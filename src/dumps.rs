//! Finding the newest database dump that the mirrors agree on: each mirror
//! lists its dumps as links named by date (`YYYYMMDD/`), and the newest date
//! that any mirror lists is chosen, with the status URL of every mirror that
//! has it.
use vstd::prelude::*;

use crate::text::{chars_of, views};

verus! {

/// chrono's calendar date, carried opaque: only whether one was made is read.
#[verifier::external_type_specification]
#[verifier::external_body]
pub struct ExNaiveDate(chrono::NaiveDate);

/// Whether `year` is a leap year of the proleptic Gregorian calendar.
pub open spec fn is_leap_year(year: int) -> bool {
    year % 4 == 0 && (year % 100 != 0 || year % 400 == 0)
}

/// The number of days of `month` in `year`.
pub open spec fn days_in_month(year: int, month: int) -> int {
    if month == 2 {
        if is_leap_year(year) {
            29
        } else {
            28
        }
    } else if month == 4 || month == 6 || month == 9 || month == 11 {
        30
    } else {
        31
    }
}

/// Whether the day exists in the proleptic Gregorian calendar, within the
/// years that `chrono` represents.
pub open spec fn is_calendar_date(year: i32, month: u32, day: u32) -> bool {
    &&& -262143 <= year <= 262142
    &&& 1 <= month <= 12
    &&& 1 <= day <= days_in_month(year as int, month as int)
}

/// `NaiveDate::from_ymd_opt` gives a date exactly for a day that exists,
/// with the year in chrono's range.
pub assume_specification[ chrono::NaiveDate::from_ymd_opt ](year: i32, month: u32, day: u32) -> (r:
    Option<chrono::NaiveDate>)
    ensures
        r is Some <==> is_calendar_date(year, month, day),
;

/// The views of a sequence of optional strings.
pub open spec fn opt_views(v: Seq<Option<String>>) -> Seq<Option<Seq<char>>> {
    v.map_values(|o: Option<String>| crate::transcode::opt_view(o))
}

/// The link targets of the elements of an HTML document that a CSS selector
/// picks, in the order scraper yields them (`None` for an element without
/// `href`); `None` where the selector does not parse.
pub uninterp spec fn selected_links(selector: Seq<char>, html: Seq<char>) -> Option<
    Seq<Option<Seq<char>>>,
>;

/// Relies on scraper's `Selector::parse`, `Html::parse_document`,
/// `Html::select` and `Element::attr("href")`.
#[verifier::external_body]
fn select_links(selector: &str, html: &str) -> (r: Option<Vec<Option<String>>>)
    ensures
        match r {
            Some(v) => selected_links(selector@, html@) == Some(opt_views(v@)),
            None => selected_links(selector@, html@) is None,
        },
{
    let selector = scraper::Selector::parse(selector).ok()?;
    Some(
        scraper::Html::parse_document(html)
            .select(&selector)
            .map(|a| a.value().attr("href").map(|h| h.to_string()))
            .collect(),
    )
}

/// Whether the regular expression `pattern` matches somewhere in `text`;
/// `None` where the pattern does not compile.
pub uninterp spec fn regex_match(pattern: Seq<char>, text: Seq<char>) -> Option<bool>;

/// Relies on regex's `Regex::new` and `Regex::is_match`: `None` where the
/// pattern does not compile, else whether it matches.
#[verifier::external_body]
fn regex_is_match(pattern: &str, text: &str) -> (r: Option<bool>)
    ensures
        r == regex_match(pattern@, text@),
{
    regex::Regex::new(pattern).ok().map(|re| re.is_match(text))
}

/// The pattern of a link that names a dump: eight digits, then at most a
/// slash.
pub open spec fn dump_link_pattern() -> Seq<char> {
    "^\\d{8}/?$"@
}

/// The selector of the links of a mirror's index page.
pub open spec fn index_link_selector() -> Seq<char> {
    "table tr td a"@
}

/// Relies on itertools' `Itertools::unique`: each distinct item once.
#[verifier::external_body]
fn unique_items(v: Vec<u32>) -> (r: Vec<u32>)
    ensures
        r@.no_duplicates(),
        forall|x: u32| r@.contains(x) <==> v@.contains(x),
{
    itertools::Itertools::unique(v.into_iter()).collect()
}

/// Relies on itertools' `Itertools::sorted`: the same items, in increasing
/// order.
#[verifier::external_body]
fn sorted_items(v: Vec<u32>) -> (r: Vec<u32>)
    ensures
        r@.to_multiset() == v@.to_multiset(),
        forall|i: int, j: int| 0 <= i < j < r.len() ==> r@[i] <= r@[j],
{
    itertools::Itertools::sorted(v.into_iter()).collect()
}

/// Whether `c` is one of the ASCII digits.
pub open spec fn is_digit(c: char) -> bool {
    '0' <= c && c <= '9'
}

/// The value of a run of decimal digits.
pub open spec fn digits_value(s: Seq<char>) -> nat
    decreases s.len(),
{
    if s.len() == 0 {
        0
    } else {
        digits_value(s.drop_last()) * 10 + ((s.last() as u32) - ('0' as u32)) as nat
    }
}

/// Whether a link names a dump: eight digits, then at most a slash.
pub open spec fn is_dump_link(h: Seq<char>) -> bool {
    &&& h.len() == 8 || (h.len() == 9 && h[8] == '/')
    &&& forall|i: int| 0 <= i < 8 ==> is_digit(#[trigger] h[i])
}

/// The date of a dump link, as the number `YYYYMMDD`.
pub open spec fn link_stamp(h: Seq<char>) -> nat {
    digits_value(h.subrange(0, 8))
}

/// Whether a stamp `YYYYMMDD` names a day that exists.
pub open spec fn stamp_is_date(stamp: nat) -> bool {
    is_calendar_date((stamp / 10000) as i32, ((stamp / 100) % 100) as u32, (stamp % 100) as u32)
}

/// One dump that a mirror lists: its date as `YYYYMMDD` and the URL of its
/// status file.
pub struct DumpEntry {
    pub stamp: u32,
    pub url: String,
}

/// What a `DumpEntry` holds, over plain values.
pub open spec fn entry_view(e: DumpEntry) -> (u32, Seq<char>) {
    (e.stamp, e.url@)
}

/// The views of a mirror's entries.
pub open spec fn entry_views(es: Seq<DumpEntry>) -> Seq<(u32, Seq<char>)> {
    es.map_values(|e: DumpEntry| entry_view(e))
}

/// The name of the status file of a dump.
pub open spec fn status_file() -> Seq<char> {
    "dumpstatus.json"@
}

/// The dumps that a mirror at `mirror` lists through `links`, in order: the
/// links that match the dump pattern, with ASCII digits, and name an
/// existing day.
pub open spec fn dumps_of_links(mirror: Seq<char>, links: Seq<Option<Seq<char>>>) -> Seq<
    (u32, Seq<char>),
>
    decreases links.len(),
{
    if links.len() == 0 {
        seq![]
    } else {
        let rest = dumps_of_links(mirror, links.drop_last());
        match links.last() {
            Some(h) => if regex_match(dump_link_pattern(), h) == Some(true) && is_dump_link(h) && stamp_is_date(
                link_stamp(h),
            ) {
                rest.push((link_stamp(h) as u32, mirror + h + status_file()))
            } else {
                rest
            },
            None => rest,
        }
    }
}

/// The stamp of a link that names a dump of an existing day.
pub fn dump_stamp(h: &str) -> (r: Option<u32>)
    ensures
        r matches Some(s) ==> is_dump_link(h@) && stamp_is_date(link_stamp(h@)) && s == link_stamp(h@),
        r is None ==> !(is_dump_link(h@) && stamp_is_date(link_stamp(h@))),
{
    let v = chars_of(h);
    if !(v.len() == 8 || (v.len() == 9 && v[8] == '/')) {
        return None;
    }
    let mut value: u32 = 0;
    let mut i: usize = 0;
    while i < 8
        invariant
            v@ == h@,
            v.len() >= 8,
            i <= 8,
            forall|k: int| 0 <= k < i ==> is_digit(#[trigger] v@[k]),
            value == digits_value(v@.subrange(0, i as int)),
            value < pow10(i as nat),
        decreases 8 - i,
    {
        let c = v[i];
        if !('0' <= c && c <= '9') {
            return None;
        }
        let d: u32 = (c as u32) - ('0' as u32);
        assert(v@.subrange(0, i + 1).drop_last() =~= v@.subrange(0, i as int));
        assert(value * 10 + d < pow10(i as nat) * 10) by (nonlinear_arith)
            requires
                value < pow10(i as nat),
                d < 10,
        ;
        assert(pow10((i + 1) as nat) == pow10(i as nat) * 10);
        assert(pow10(i as nat) * 10 <= 100000000) by {
            lemma_pow10_bound(i as nat);
        }
        value = value * 10 + d;
        i = i + 1;
    }
    let year = (value / 10000) as i32;
    let month = (value / 100) % 100;
    let day = value % 100;
    if chrono::NaiveDate::from_ymd_opt(year, month, day).is_some() {
        Some(value)
    } else {
        None
    }
}

/// Ten to the power `n`.
pub open spec fn pow10(n: nat) -> nat
    decreases n,
{
    if n == 0 {
        1
    } else {
        pow10((n - 1) as nat) * 10
    }
}

proof fn lemma_pow10_bound(n: nat)
    requires
        n < 8,
    ensures
        pow10(n) * 10 <= 100000000,
{
    assert(pow10(0) == 1);
    assert(pow10(1) == 10);
    assert(pow10(2) == 100);
    assert(pow10(3) == 1000);
    assert(pow10(4) == 10000);
    assert(pow10(5) == 100000);
    assert(pow10(6) == 1000000);
    assert(pow10(7) == 10000000);
}

/// The dumps that a mirror at `mirror` lists through the link targets `links`.
pub fn dumps_from_links(mirror: &str, links: &Vec<Option<String>>) -> (r: Vec<DumpEntry>)
    ensures
        entry_views(r@) == dumps_of_links(mirror@, opt_views(links@)),
{
    let ghost lv = opt_views(links@);
    let mut r: Vec<DumpEntry> = Vec::new();
    let mut i: usize = 0;
    while i < links.len()
        invariant
            i <= links.len(),
            lv == opt_views(links@),
            entry_views(r@) == dumps_of_links(mirror@, lv.subrange(0, i as int)),
        decreases links.len() - i,
    {
        assert(lv.subrange(0, i + 1).drop_last() =~= lv.subrange(0, i as int));
        assert(lv.subrange(0, i + 1).last() == crate::transcode::opt_view(links@[i as int]));
        if let Some(h) = &links[i] {
            let matched = match regex_is_match("^\\d{8}/?$", h.as_str()) {
                Some(b) => b,
                None => false,
            };
            if !matched {
            } else if let Some(stamp) = dump_stamp(h.as_str()) {
                let mut url = String::from_str(mirror);
                url.append(h.as_str());
                url.append("dumpstatus.json");
                let ghost before = r@;
                r.push(DumpEntry { stamp, url });
                assert(entry_views(r@) =~= entry_views(before).push(entry_view(r@.last())));
            }
        }
        i = i + 1;
    }
    assert(lv.subrange(0, links.len() as int) =~= lv);
    r
}

/// The dumps that the mirror at `mirror` lists in its HTML index page `html`:
/// those of the links in its table cells.
pub fn mirror_dumps(mirror: &str, html: &str) -> (r: Vec<DumpEntry>)
    ensures
        entry_views(r@) == match selected_links(index_link_selector(), html@) {
            Some(links) => dumps_of_links(mirror@, links),
            None => seq![],
        },
{
    match select_links("table tr td a", html) {
        Some(links) => dumps_from_links(mirror, &links),
        None => Vec::new(),
    }
}

/// The views of the listings of several mirrors.
pub open spec fn listing_views(ls: Seq<Vec<DumpEntry>>) -> Seq<Seq<(u32, Seq<char>)>> {
    ls.map_values(|l: Vec<DumpEntry>| entry_views(l@))
}

/// Every stamp that the listings hold, in order.
pub open spec fn all_stamps(ls: Seq<Seq<(u32, Seq<char>)>>) -> Seq<u32>
    decreases ls.len(),
{
    if ls.len() == 0 {
        seq![]
    } else {
        all_stamps(ls.drop_last()) + ls.last().map_values(|e: (u32, Seq<char>)| e.0)
    }
}

/// Whether `s` is the newest stamp that the listings hold.
pub open spec fn is_newest(ls: Seq<Seq<(u32, Seq<char>)>>, s: u32) -> bool {
    &&& all_stamps(ls).contains(s)
    &&& forall|x: u32| all_stamps(ls).contains(x) ==> x <= s
}

/// The URL that a listing gives for stamp `s`: that of its last entry with
/// that stamp, as a map keyed by date keeps the last value inserted.
pub open spec fn url_for(l: Seq<(u32, Seq<char>)>, s: u32) -> Option<Seq<char>>
    decreases l.len(),
{
    if l.len() == 0 {
        None
    } else if l.last().0 == s {
        Some(l.last().1)
    } else {
        url_for(l.drop_last(), s)
    }
}

/// The URLs for stamp `s` of the listings that hold it, in listing order.
pub open spec fn urls_for(ls: Seq<Seq<(u32, Seq<char>)>>, s: u32) -> Seq<Seq<char>>
    decreases ls.len(),
{
    if ls.len() == 0 {
        seq![]
    } else {
        match url_for(ls.last(), s) {
            Some(u) => urls_for(ls.drop_last(), s).push(u),
            None => urls_for(ls.drop_last(), s),
        }
    }
}

fn stamps_of(listings: &Vec<Vec<DumpEntry>>) -> (r: Vec<u32>)
    ensures
        r@ == all_stamps(listing_views(listings@)),
{
    let ghost ls = listing_views(listings@);
    let mut r: Vec<u32> = Vec::new();
    let mut i: usize = 0;
    while i < listings.len()
        invariant
            i <= listings.len(),
            ls == listing_views(listings@),
            r@ == all_stamps(ls.subrange(0, i as int)),
        decreases listings.len() - i,
    {
        assert(ls.subrange(0, i + 1).drop_last() =~= ls.subrange(0, i as int));
        let l = &listings[i];
        let ghost stamps = ls[i as int].map_values(|e: (u32, Seq<char>)| e.0);
        let ghost before = r@;
        let mut j: usize = 0;
        while j < l.len()
            invariant
                j <= l.len(),
                ls == listing_views(listings@),
                l == listings@[i as int],
                i < listings.len(),
                stamps == ls[i as int].map_values(|e: (u32, Seq<char>)| e.0),
                r@ == before + stamps.subrange(0, j as int),
            decreases l.len() - j,
        {
            r.push(l[j].stamp);
            j = j + 1;
            assert(r@ =~= before + stamps.subrange(0, j as int));
        }
        assert(stamps.subrange(0, l.len() as int) =~= stamps);
        i = i + 1;
    }
    assert(ls.subrange(0, listings.len() as int) =~= ls);
    r
}

fn url_in(l: &Vec<DumpEntry>, s: u32) -> (r: Option<String>)
    ensures
        crate::transcode::opt_view(r) == url_for(entry_views(l@), s),
{
    let ghost ev = entry_views(l@);
    let mut r: Option<String> = None;
    let mut j: usize = 0;
    while j < l.len()
        invariant
            j <= l.len(),
            ev == entry_views(l@),
            crate::transcode::opt_view(r) == url_for(ev.subrange(0, j as int), s),
        decreases l.len() - j,
    {
        assert(ev.subrange(0, j + 1).drop_last() =~= ev.subrange(0, j as int));
        if l[j].stamp == s {
            r = Some(l[j].url.clone());
        }
        j = j + 1;
    }
    assert(ev.subrange(0, l.len() as int) =~= ev);
    r
}

/// The newest dump date that any mirror lists, with the status URL of each
/// mirror that lists it, in mirror order; `None` where no mirror lists any.
pub fn latest_dump(listings: &Vec<Vec<DumpEntry>>) -> (r: Option<(u32, Vec<String>)>)
    ensures
        r is None <==> all_stamps(listing_views(listings@)).len() == 0,
        r matches Some((s, urls)) ==> is_newest(listing_views(listings@), s) && views(urls@)
            == urls_for(listing_views(listings@), s),
{
    let ghost ls = listing_views(listings@);
    let stamps = stamps_of(listings);
    let ghost all = stamps@;
    let sorted = sorted_items(unique_items(stamps));
    proof {
        broadcast use vstd::seq_lib::group_to_multiset_ensures;

        assert forall|x: u32| sorted@.contains(x) <==> all.contains(x) by {
            assert(sorted@.contains(x) <==> sorted@.to_multiset().count(x) > 0);
        }
    }
    if sorted.len() == 0 {
        proof {
            if all.len() > 0 {
                assert(all.contains(all[0]));
            }
        }
        return None;
    }
    let s = sorted[sorted.len() - 1];
    assert(sorted@.contains(s));
    assert(all.contains(s));
    assert forall|x: u32| all_stamps(ls).contains(x) implies x <= s by {
        assert(sorted@.contains(x));
        let k = choose|k: int| 0 <= k < sorted.len() && sorted@[k] == x;
        if k < sorted.len() - 1 {
            assert(sorted@[k] <= sorted@[sorted.len() - 1]);
        }
    }
    let mut urls: Vec<String> = Vec::new();
    let mut i: usize = 0;
    while i < listings.len()
        invariant
            i <= listings.len(),
            ls == listing_views(listings@),
            views(urls@) == urls_for(ls.subrange(0, i as int), s),
        decreases listings.len() - i,
    {
        assert(ls.subrange(0, i + 1).drop_last() =~= ls.subrange(0, i as int));
        if let Some(u) = url_in(&listings[i], s) {
            let ghost before = urls@;
            urls.push(u);
            assert(views(urls@) =~= views(before).push(urls@.last()@));
        }
        i = i + 1;
    }
    assert(ls.subrange(0, listings.len() as int) =~= ls);
    Some((s, urls))
}

/// Whether a dump job's status says it has finished.
pub fn job_is_done(status: &str) -> (r: bool)
    ensures
        r == (status@ == "done"@),
{
    let done = String::from_str("done");
    let given = String::from_str(status);
    given == done
}

} // verus!

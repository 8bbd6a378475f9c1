//! Balance forecasts: the hledger command line that asks for one, and the
//! scratch journal a preview of hypothetical or excluded recurring items is
//! forecast from.
use vstd::prelude::*;
use crate::date::{Date, iso_text, month_index, add_months_spec, max_year, opt_date_view};
use crate::finances::models::PreviewItem;
use crate::finances::journal_writer::{recurring_item_text, format_recurring_item, has_tag, has_tag_exec};
use crate::text::{
    chars_of, string_of, append, append_str, split, join, trim, split_exec, join_exec,
    trim_exec, views, str_views, opt_str_view, lemma_views_push,
};

verus! {

/// The report interval: a point a day for a horizon up to a year, a point
/// a week beyond that.
pub open spec fn period_flag(months_ahead: int) -> Seq<char> {
    if months_ahead <= 12 {
        "-D"@
    } else {
        "-W"@
    }
}

/// The forecast's end: `months_ahead` months after today, or today itself
/// when that date is out of range.
pub open spec fn forecast_end(today: (int, int, int), months_ahead: int) -> (int, int, int) {
    if 0 < months_ahead <= i32::MAX && (month_index(today) + months_ahead) / 12 <= max_year() {
        add_months_spec(today, months_ahead)
    } else {
        today
    }
}

/// The arguments of `hledger balance` for a forecast of the given account
/// paths from today: the history before today folded into the first
/// period, and hledger's own forecast of the periodic rules after it.
pub open spec fn forecast_args_spec(paths: Seq<Seq<char>>, months_ahead: int, today: (int, int, int)) -> Seq<
    Seq<char>,
> {
    seq!["balance"@] + paths + seq![
        period_flag(months_ahead),
        "--historical"@,
        "--forecast"@,
        "-b"@,
        iso_text(today),
        "-e"@,
        iso_text(forecast_end(today, months_ahead)),
        "-O"@,
        "json"@,
    ]
}

fn push_text(v: &mut Vec<String>, t: &str)
    ensures
        str_views(final(v)@) == str_views(old(v)@).push(t@),
{
    let s = string_of(&chars_of(t));
    let ghost before = v@;
    v.push(s);
    assert(str_views(v@) =~= str_views(before).push(t@));
}

/// The arguments of `hledger balance` that forecast the balances of
/// `account_paths` for `months_ahead` months from `today`.
pub fn forecast_args(account_paths: &Vec<String>, months_ahead: u32, today: Date) -> (r: Vec<String>)
    ensures
        str_views(r@) == forecast_args_spec(str_views(account_paths@), months_ahead as int, today@),
{
    let end = match today.checked_add_months(months_ahead) {
        Some(d) => d,
        None => today,
    };
    assert(end@ == forecast_end(today@, months_ahead as int));
    let mut r: Vec<String> = Vec::new();
    push_text(&mut r, "balance");
    let mut i: usize = 0;
    while i < account_paths.len()
        invariant
            i <= account_paths@.len(),
            str_views(r@) == seq!["balance"@] + str_views(account_paths@).take(i as int),
        decreases account_paths@.len() - i,
    {
        push_text(&mut r, account_paths[i].as_str());
        assert(str_views(r@) =~= seq!["balance"@] + str_views(account_paths@).take(i + 1));
        i += 1;
    }
    assert(str_views(account_paths@).take(i as int) =~= str_views(account_paths@));
    let ghost head = str_views(r@);
    if months_ahead <= 12 {
        push_text(&mut r, "-D");
    } else {
        push_text(&mut r, "-W");
    }
    push_text(&mut r, "--historical");
    push_text(&mut r, "--forecast");
    push_text(&mut r, "-b");
    push_text(&mut r, today.to_iso().as_str());
    push_text(&mut r, "-e");
    push_text(&mut r, end.to_iso().as_str());
    push_text(&mut r, "-O");
    push_text(&mut r, "json");
    assert(str_views(r@) =~= forecast_args_spec(str_views(account_paths@), months_ahead as int, today@));
    r
}

// ---------------------------------------------------------------------------
// Previews
// ---------------------------------------------------------------------------

/// Whether a block carries the whole tag `id:{id}` of one of `ids`.
pub open spec fn carries_any(block: Seq<char>, ids: Seq<Seq<char>>) -> bool {
    exists|j: int| 0 <= j < ids.len() && has_tag(block, "id:"@ + #[trigger] ids[j])
}

/// The blocks of `bs` that carry none of the id markers of `ids`, in order.
pub open spec fn blocks_without(bs: Seq<Seq<char>>, ids: Seq<Seq<char>>) -> Seq<Seq<char>>
    decreases bs.len(),
{
    if bs.len() == 0 {
        seq![]
    } else if carries_any(bs.last(), ids) {
        blocks_without(bs.drop_last(), ids)
    } else {
        blocks_without(bs.drop_last(), ids).push(bs.last())
    }
}

/// A preview forecasts from no block that carries an excluded id, and from
/// no block that the journal does not have: every block left by
/// `blocks_without` carries none of `ids` and is a block of `bs`; every
/// block of `bs` that carries none of `ids` is left.
pub proof fn lemma_blocks_without(bs: Seq<Seq<char>>, ids: Seq<Seq<char>>)
    ensures
        forall|i: int|
            0 <= i < blocks_without(bs, ids).len() ==> !carries_any(#[trigger] blocks_without(bs, ids)[i], ids)
                && bs.contains(blocks_without(bs, ids)[i]),
        forall|j: int| 0 <= j < bs.len() && !carries_any(#[trigger] bs[j], ids) ==> blocks_without(bs, ids).contains(bs[j]),
    decreases bs.len(),
{
    if bs.len() > 0 {
        let pre = bs.drop_last();
        lemma_blocks_without(pre, ids);
        let k = blocks_without(bs, ids);
        let kp = blocks_without(pre, ids);
        assert forall|i: int| 0 <= i < k.len() implies !carries_any(#[trigger] k[i], ids) && bs.contains(k[i]) by {
            if i < kp.len() {
                assert(k[i] == kp[i]);
                let w = choose|w: int| 0 <= w < pre.len() && pre[w] == kp[i];
                assert(bs[w] == pre[w]);
            } else {
                assert(k[i] == bs.last());
                assert(bs[bs.len() - 1] == bs.last());
            }
        }
        assert forall|j: int| 0 <= j < bs.len() && !carries_any(#[trigger] bs[j], ids) implies k.contains(bs[j]) by {
            if j < bs.len() - 1 {
                assert(pre[j] == bs[j]);
                let w = choose|w: int| 0 <= w < kp.len() && kp[w] == pre[j];
                assert(k[w] == kp[w]);
            } else {
                assert(k[k.len() - 1] == bs[j]);
            }
        }
    }
}

/// The name a hypothetical item is written with: its name trimmed, or
/// `Preview` when that is empty.
pub open spec fn preview_name(name: Seq<char>) -> Seq<char> {
    if trim(name).len() == 0 {
        "Preview"@
    } else {
        trim(name)
    }
}

/// The periodic rule of a hypothetical item, on a line of its own, under
/// the scratch id `preview-{scratch}` and the label `preview`.
pub open spec fn preview_rule(item: PreviewItem, scratch: Seq<char>) -> Seq<char> {
    seq!['\n'] + recurring_item_text(
        "preview-"@ + scratch,
        preview_name(item.name@),
        item.amount as int,
        item.kind,
        "preview"@,
        item.frequency,
        opt_date_view(item.reference_date),
        item.account@,
        None,
    )
}

/// The rules of the first `n` items, in order, each under its scratch id.
pub open spec fn preview_rules(items: Seq<PreviewItem>, scratch: Seq<Seq<char>>, n: int) -> Seq<char>
    decreases n,
{
    if n <= 0 {
        seq![]
    } else {
        preview_rules(items, scratch, n - 1) + preview_rule(items[n - 1], scratch[n - 1])
    }
}

/// The scratch journal a preview is forecast from: none when there is
/// nothing to preview (the real journal is forecast as it is); otherwise the
/// real journal, less its blank-line-delimited blocks that carry an excluded
/// id, followed by one periodic rule per hypothetical item.
pub open spec fn preview_journal_spec(
    content: Seq<char>,
    items: Seq<PreviewItem>,
    exclude: Seq<Seq<char>>,
    scratch: Seq<Seq<char>>,
) -> Option<Seq<char>> {
    if items.len() == 0 && exclude.len() == 0 {
        None
    } else {
        let base = if exclude.len() == 0 {
            content
        } else {
            join(blocks_without(split(content, "\n\n"@), exclude), "\n\n"@)
        };
        Some(base + preview_rules(items, scratch, items.len() as int))
    }
}

/// Whether `block` carries the marker of one of `ids`.
fn carries_any_exec(block: &Vec<char>, ids: &Vec<String>) -> (r: bool)
    ensures
        r == carries_any(block@, str_views(ids@)),
{
    let mut j: usize = 0;
    while j < ids.len()
        invariant
            j <= ids@.len(),
            forall|k: int| 0 <= k < j ==> !has_tag(block@, "id:"@ + #[trigger] str_views(ids@)[k]),
        decreases ids@.len() - j,
    {
        let mut marker = chars_of("id:");
        append_str(&mut marker, ids[j].as_str());
        if has_tag_exec(block, &marker) {
            assert(has_tag(block@, "id:"@ + str_views(ids@)[j as int]));
            return true;
        }
        j += 1;
    }
    false
}

/// The real journal less the blocks that carry an id of `ids`.
#[verifier::rlimit(30)]
fn journal_without(content: &str, ids: &Vec<String>) -> (r: Vec<char>)
    ensures
        r@ == join(blocks_without(split(content@, "\n\n"@), str_views(ids@)), "\n\n"@),
{
    let c = chars_of(content);
    let sep = vec!['\n', '\n'];
    proof {
        reveal_strlit("\n\n");
    }
    assert(sep@ =~= "\n\n"@);
    let blocks = split_exec(&c, &sep);
    let ghost bs = views(blocks@);
    let ghost idv = str_views(ids@);
    let mut kept: Vec<Vec<char>> = Vec::new();
    let mut i: usize = 0;
    while i < blocks.len()
        invariant
            i <= blocks@.len(),
            bs == views(blocks@),
            idv == str_views(ids@),
            views(kept@) == blocks_without(bs.take(i as int), idv),
        decreases blocks@.len() - i,
    {
        let ghost pre = bs.take(i as int);
        let ghost post = bs.take(i + 1);
        assert(post.drop_last() =~= pre);
        assert(post.last() == blocks@[i as int]@);
        if !carries_any_exec(&blocks[i], ids) {
            let b = crate::text::copy_of(&blocks[i]);
            let ghost kb = kept@;
            kept.push(b);
            proof {
                lemma_views_push(kb, b);
            }
        }
        i += 1;
    }
    assert(bs.take(blocks@.len() as int) =~= bs);
    join_exec(&kept, &sep)
}

/// The name a hypothetical item is written with.
fn preview_name_exec(name: &str) -> (r: String)
    ensures
        r@ == preview_name(name@),
{
    let t = trim_exec(&chars_of(name));
    if t.len() == 0 {
        string_of(&chars_of("Preview"))
    } else {
        string_of(&t)
    }
}

/// The scratch journal that previews `items` added to, and the recurring
/// items `exclude_recurring_ids` taken out of, the journal `content`, the
/// `i`-th item written under the id `preview-{scratch_ids[i]}`; `None` when
/// there is nothing to preview.
#[verifier::rlimit(30)]
pub fn preview_journal(
    content: &str,
    items: &Vec<PreviewItem>,
    exclude_recurring_ids: &Vec<String>,
    scratch_ids: &Vec<String>,
) -> (r: Option<String>)
    requires
        scratch_ids@.len() == items@.len(),
    ensures
        opt_str_view(r) == preview_journal_spec(
            content@,
            items@,
            str_views(exclude_recurring_ids@),
            str_views(scratch_ids@),
        ),
{
    if items.len() == 0 && exclude_recurring_ids.len() == 0 {
        return None;
    }
    let mut out: Vec<char> = if exclude_recurring_ids.len() == 0 {
        chars_of(content)
    } else {
        journal_without(content, exclude_recurring_ids)
    };
    let ghost base = out@;
    let ghost scratch = str_views(scratch_ids@);
    let mut i: usize = 0;
    while i < items.len()
        invariant
            i <= items@.len(),
            scratch_ids@.len() == items@.len(),
            scratch == str_views(scratch_ids@),
            out@ == base + preview_rules(items@, scratch, i as int),
        decreases items@.len() - i,
    {
        let item = &items[i];
        let mut id = chars_of("preview-");
        append_str(&mut id, scratch_ids[i].as_str());
        let name = preview_name_exec(item.name.as_str());
        let rule = format_recurring_item(
            string_of(&id).as_str(),
            name.as_str(),
            item.amount,
            item.kind,
            "preview",
            item.frequency,
            item.reference_date,
            item.account.as_str(),
            None,
        );
        let ghost before = out@;
        out.push('\n');
        append(&mut out, &chars_of(rule.as_str()));
        assert(out@ =~= before + preview_rule(items@[i as int], scratch[i as int]));
        i += 1;
    }
    Some(string_of(&out))
}

/// A lowercase hexadecimal digit.
pub open spec fn is_lower_hex(c: char) -> bool {
    ('0' <= c && c <= '9') || ('a' <= c && c <= 'f')
}

/// The hyphenated lowercase text of a version-4 UUID: 36 characters,
/// hyphens at 8, 13, 18 and 23 and lowercase hexadecimal digits elsewhere,
/// the version digit `4` at 14 and a variant digit `8` to `b` at 19.
pub open spec fn v4_uuid_text(t: Seq<char>) -> bool {
    &&& t.len() == 36
    &&& forall|i: int|
        0 <= i < 36 ==> if i == 8 || i == 13 || i == 18 || i == 23 {
            #[trigger] t[i] == '-'
        } else {
            is_lower_hex(t[i])
        }
    &&& t[14] == '4'
    &&& (t[19] == '8' || t[19] == '9' || t[19] == 'a' || t[19] == 'b')
}

/// `uuid::Uuid::new_v4`, as hyphenated text: a fresh random id. Which id
/// depends on chance alone; its shape is that of every version-4 UUID as
/// the crate writes it (`Display` writes the lowercase hyphenated form).
#[verifier::external_body]
pub(crate) fn new_uuid_text() -> (r: String)
    ensures
        v4_uuid_text(r@),
{
    uuid::Uuid::new_v4().to_string()
}

/// The scratch journal of a preview, each hypothetical item under a fresh
/// random id: `preview_journal` with some scratch id per item.
pub fn fresh_preview_journal(
    content: &str,
    items: &Vec<PreviewItem>,
    exclude_recurring_ids: &Vec<String>,
) -> (r: Option<String>)
    ensures
        exists|scratch: Seq<Seq<char>>|
            scratch.len() == items@.len() && opt_str_view(r) == #[trigger] preview_journal_spec(
                content@,
                items@,
                str_views(exclude_recurring_ids@),
                scratch,
            ),
{
    let mut ids: Vec<String> = Vec::new();
    let mut i: usize = 0;
    while i < items.len()
        invariant
            i <= items@.len(),
            ids@.len() == i,
        decreases items@.len() - i,
    {
        ids.push(new_uuid_text());
        i += 1;
    }
    let r = preview_journal(content, items, exclude_recurring_ids, &ids);
    assert(str_views(ids@).len() == items@.len());
    r
}

} // verus!

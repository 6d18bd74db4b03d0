//! Message lines of a failure: blank runs folded into one empty line, extra
//! messages merged in without repeating what is already said, and detail
//! texts sorted into stack lines and message lines.
use crate::text::{
    contains, contains_char, contains_str, is_blank, is_blank_str, lines, lines_of, owned, str_eq,
    trim, trim_str, views,
};
use crate::test_model::{json_member, member_of, JsonValue};
use vstd::prelude::*;

verus! {

/// Each run of blank lines replaced by one empty line; other lines kept.
pub open spec fn condense(ls: Seq<Seq<char>>) -> Seq<Seq<char>>
    decreases ls.len(),
{
    if ls.len() == 0 {
        Seq::empty()
    } else {
        let r = condense(ls.drop_last());
        let l = ls.last();
        if is_blank(l) {
            if r.len() > 0 && r.last().len() == 0 {
                r
            } else {
                r.push(Seq::empty())
            }
        } else {
            r.push(l)
        }
    }
}

/// No two neighbouring lines are both blank.
pub open spec fn no_blank_pair(ls: Seq<Seq<char>>) -> bool {
    forall|i: int| 0 <= i < ls.len() - 1 ==> !(is_blank(#[trigger] ls[i]) && is_blank(ls[i + 1]))
}

/// Every blank line is the empty line.
pub open spec fn blanks_are_empty(ls: Seq<Seq<char>>) -> bool {
    forall|i: int| 0 <= i < ls.len() ==> is_blank(#[trigger] ls[i]) ==> ls[i].len() == 0
}

pub proof fn lemma_condense_shape(ls: Seq<Seq<char>>)
    ensures
        no_blank_pair(condense(ls)),
        blanks_are_empty(condense(ls)),
        condense(ls).len() <= ls.len(),
    decreases ls.len(),
{
    if ls.len() > 0 {
        let r = condense(ls.drop_last());
        lemma_condense_shape(ls.drop_last());
        let out = condense(ls);
        assert(is_blank(Seq::<char>::empty()));
        if r.len() > 0 {
            let lst = r.last();
            assert(r[r.len() - 1] == lst);
            if is_blank(lst) {
                assert(lst.len() == 0);
            }
            if lst.len() == 0 {
                assert(is_blank(lst));
            }
        }
        assert forall|i: int| 0 <= i < out.len() - 1 implies !(is_blank(#[trigger] out[i]) && is_blank(
            out[i + 1],
        )) by {
            if i + 1 < r.len() {
                assert(out[i] == r[i] && out[i + 1] == r[i + 1]);
            } else {
                assert(out[i] == r[i]);
            }
        }
        assert forall|i: int| 0 <= i < out.len() implies is_blank(#[trigger] out[i]) ==> out[i].len()
            == 0 by {
            if i < r.len() {
                assert(out[i] == r[i]);
            }
        }
    }
}

/// Lines already condensed come back unchanged.
pub proof fn lemma_condense_fixed(ls: Seq<Seq<char>>)
    requires
        no_blank_pair(ls),
        blanks_are_empty(ls),
    ensures
        condense(ls) == ls,
    decreases ls.len(),
{
    if ls.len() > 0 {
        let p = ls.drop_last();
        assert forall|i: int| 0 <= i < p.len() - 1 implies !(is_blank(#[trigger] p[i]) && is_blank(
            p[i + 1],
        )) by {
            assert(p[i] == ls[i] && p[i + 1] == ls[i + 1]);
        }
        assert forall|i: int| 0 <= i < p.len() implies is_blank(#[trigger] p[i]) ==> p[i].len() == 0 by {
            assert(p[i] == ls[i]);
        }
        lemma_condense_fixed(p);
        let l = ls.last();
        if is_blank(l) {
            assert(l.len() == 0);
            assert(l =~= Seq::<char>::empty());
            if p.len() > 0 {
                assert(ls[ls.len() - 2] == p.last());
                if p.last().len() == 0 {
                    assert(is_blank(p.last()));
                    assert(false);
                }
            }
        }
        assert(condense(ls) =~= ls);
    }
}

/// Condensing leaves no two blank lines side by side, makes every blank
/// line empty, never adds lines, and condensing again changes nothing.
pub proof fn law_condense_blank_runs(ls: Seq<Seq<char>>)
    ensures
        no_blank_pair(condense(ls)),
        blanks_are_empty(condense(ls)),
        condense(ls).len() <= ls.len(),
        condense(condense(ls)) == condense(ls),
{
    lemma_condense_shape(ls);
    lemma_condense_fixed(condense(ls));
}

/// `lines` with every run of blank lines replaced by one empty line.
pub fn condense_blank_runs(lines: &[String]) -> (res: Vec<String>)
    ensures
        views(res@) == condense(views(lines@)),
{
    let mut out: Vec<String> = Vec::new();
    let mut last_blank = false;
    let mut i: usize = 0;
    while i < lines.len()
        invariant
            i <= lines.len(),
            views(out@) == condense(views(lines@).take(i as int)),
            last_blank == (out.len() > 0 && out@[out.len() - 1]@.len() == 0),
            last_blank ==> i > 0,
        decreases lines.len() - i,
    {
        assert(views(lines@).take(i + 1).drop_last() =~= views(lines@).take(i as int));
        assert(views(lines@).take(i + 1).last() == lines@[i as int]@);
        let ghost before = views(out@);
        if is_blank_str(lines[i].as_str()) {
            if !last_blank {
                out.push(String::new());
                assert(views(out@) =~= before.push(Seq::<char>::empty()));
            }
            last_blank = true;
        } else {
            out.push(owned(lines[i].as_str()));
            assert(views(out@) =~= before.push(lines@[i as int]@));
            proof {
                if lines@[i as int]@.len() == 0 {
                    assert(is_blank(lines@[i as int]@));
                }
            }
            last_blank = false;
        }
        i = i + 1;
    }
    assert(views(lines@).take(lines.len() as int) =~= views(lines@));
    out
}

/// The trimmed lines of `primary` that are not empty: what the merge
/// treats as already said.
pub open spec fn seen_keys(primary: Seq<Seq<char>>) -> Set<Seq<char>> {
    Set::new(|k: Seq<char>| k.len() > 0 && exists|i: int| 0 <= i < primary.len() && trim(#[trigger] primary[i]) == k)
}

/// The extra messages that get added, with the keys seen after them: a
/// message is added when its trimmed text is not empty and not seen before.
pub open spec fn merge_fold(details: Seq<Seq<char>>, seen: Set<Seq<char>>) -> (Seq<Seq<char>>, Set<Seq<char>>)
    decreases details.len(),
{
    if details.len() == 0 {
        (Seq::empty(), seen)
    } else {
        let (acc, s) = merge_fold(details.drop_last(), seen);
        let m = details.last();
        let k = trim(m);
        if k.len() == 0 || s.contains(k) {
            (acc, s)
        } else {
            (acc.push(m), s.insert(k))
        }
    }
}

/// The primary message's lines (none when it is blank).
pub open spec fn primary_lines(primary_raw: Seq<char>) -> Seq<Seq<char>> {
    if trim(primary_raw).len() == 0 {
        Seq::empty()
    } else {
        lines(primary_raw)
    }
}

/// The primary message's lines, then each extra message not already said,
/// with blank runs condensed.
pub open spec fn merge_msg_lines_spec(primary_raw: Seq<char>, detail_msgs: Seq<Seq<char>>) -> Seq<Seq<char>> {
    let primary = primary_lines(primary_raw);
    condense(primary + merge_fold(detail_msgs, seen_keys(primary)).0)
}

fn seen_contains(seen: &Vec<String>, key: &str) -> (res: bool)
    ensures
        res == views(seen@).contains(key@),
{
    let mut i: usize = 0;
    while i < seen.len()
        invariant
            i <= seen.len(),
            forall|j: int| 0 <= j < i ==> seen@[j]@ != key@,
        decreases seen.len() - i,
    {
        if str_eq(seen[i].as_str(), key) {
            assert(views(seen@)[i as int] == key@);
            return true;
        }
        i = i + 1;
    }
    proof {
        if views(seen@).contains(key@) {
            let j = choose|j: int| 0 <= j < views(seen@).len() && views(seen@)[j] == key@;
            assert(seen@[j]@ == key@);
        }
    }
    false
}

/// The primary message's lines followed by each detail message whose
/// trimmed text is new, blank runs condensed.
pub fn merge_msg_lines(primary_raw: &str, detail_msgs: &[String]) -> (res: Vec<String>)
    ensures
        views(res@) == merge_msg_lines_spec(primary_raw@, views(detail_msgs@)),
{
    let primary: Vec<String> = if trim_str(primary_raw).as_str().is_empty() {
        Vec::new()
    } else {
        lines_of(primary_raw)
    };
    let ghost pv = views(primary@);
    assert(pv == primary_lines(primary_raw@));
    let mut seen: Vec<String> = Vec::new();
    let mut merged: Vec<String> = Vec::new();
    let mut i: usize = 0;
    while i < primary.len()
        invariant
            i <= primary.len(),
            pv == views(primary@),
            views(merged@) == pv.take(i as int),
            forall|k: Seq<char>| #[trigger] views(seen@).contains(k) <==> (k.len() > 0 && exists|j: int|
                0 <= j < i && trim(#[trigger] pv[j]) == k),
        decreases primary.len() - i,
    {
        let key = trim_str(primary[i].as_str());
        let ghost before = views(seen@);
        if !key.as_str().is_empty() {
            seen.push(key);
        }
        proof {
            assert forall|k: Seq<char>| #[trigger] views(seen@).contains(k) <==> (k.len() > 0 && exists|j: int|
                0 <= j < i + 1 && trim(#[trigger] pv[j]) == k) by {
                if views(seen@).contains(k) {
                    let j = choose|j: int| 0 <= j < views(seen@).len() && views(seen@)[j] == k;
                    if j < before.len() {
                        assert(before[j] == k);
                        assert(before.contains(k));
                    } else {
                        assert(trim(pv[i as int]) == k);
                    }
                }
                if k.len() > 0 && exists|j: int| 0 <= j < i + 1 && trim(#[trigger] pv[j]) == k {
                    let j = choose|j: int| 0 <= j < i + 1 && trim(#[trigger] pv[j]) == k;
                    if j < i {
                        assert(before.contains(k));
                        let q = choose|q: int| 0 <= q < before.len() && before[q] == k;
                        assert(views(seen@)[q] == k);
                    } else {
                        assert(views(seen@)[views(seen@).len() - 1] == k);
                    }
                }
            }
        }
        merged.push(owned(primary[i].as_str()));
        assert(pv.take(i + 1) =~= pv.take(i as int).push(pv[i as int]));
        i = i + 1;
    }
    assert(pv.take(primary.len() as int) =~= pv);
    let ghost dv = views(detail_msgs@);
    let mut d: usize = 0;
    assert(merge_fold(dv.take(0), seen_keys(pv)).0 =~= Seq::<Seq<char>>::empty());
    assert(merge_fold(dv.take(0), seen_keys(pv)).1 =~= seen_keys(pv)) by {
        assert(dv.take(0) =~= Seq::<Seq<char>>::empty());
    }
    while d < detail_msgs.len()
        invariant
            d <= detail_msgs.len(),
            dv == views(detail_msgs@),
            views(merged@) == pv + merge_fold(dv.take(d as int), seen_keys(pv)).0,
            forall|k: Seq<char>| #[trigger] views(seen@).contains(k) <==> merge_fold(
                dv.take(d as int),
                seen_keys(pv),
            ).1.contains(k),
        decreases detail_msgs.len() - d,
    {
        assert(dv.take(d + 1).drop_last() =~= dv.take(d as int));
        assert(dv.take(d + 1).last() == dv[d as int]);
        let ghost st = merge_fold(dv.take(d as int), seen_keys(pv));
        let key = trim_str(detail_msgs[d].as_str());
        let ghost before_seen = views(seen@);
        let ghost before_merged = views(merged@);
        if !key.as_str().is_empty() && !seen_contains(&seen, key.as_str()) {
            merged.push(owned(detail_msgs[d].as_str()));
            seen.push(key);
            assert(views(merged@) =~= before_merged.push(dv[d as int]));
            proof {
                assert forall|k: Seq<char>| #[trigger] views(seen@).contains(k) <==> st.1.insert(
                    trim(dv[d as int]),
                ).contains(k) by {
                    if views(seen@).contains(k) {
                        let j = choose|j: int| 0 <= j < views(seen@).len() && views(seen@)[j] == k;
                        if j < before_seen.len() {
                            assert(before_seen[j] == k);
                            assert(before_seen.contains(k));
                        }
                    }
                    if st.1.insert(trim(dv[d as int])).contains(k) && k != trim(dv[d as int]) {
                        assert(before_seen.contains(k));
                        let q = choose|q: int| 0 <= q < before_seen.len() && before_seen[q] == k;
                        assert(views(seen@)[q] == k);
                    }
                    if k == trim(dv[d as int]) {
                        assert(views(seen@)[views(seen@).len() - 1] == k);
                    }
                }
            }
        }
        d = d + 1;
    }
    assert(dv.take(detail_msgs.len() as int) =~= dv);
    condense_blank_runs(merged.as_slice())
}

/// Where a detail text goes: stack text (it holds ` at ` and a colon) or
/// message text.
pub open spec fn is_stack_text(text: Seq<char>) -> bool {
    contains(text, " at "@) && contains(text, seq![':'])
}

/// Appends the lines of `text` to `stacks` when it reads like a stack
/// trace, otherwise to `messages`.
pub fn push_string_detail(text: &str, stacks: &mut Vec<String>, messages: &mut Vec<String>)
    ensures
        is_stack_text(text@) ==> views(final(stacks)@) == views(old(stacks)@) + lines(text@),
        is_stack_text(text@) ==> final(messages)@ == old(messages)@,
        !is_stack_text(text@) ==> views(final(messages)@) == views(old(messages)@) + lines(text@),
        !is_stack_text(text@) ==> final(stacks)@ == old(stacks)@,
{
    let is_stack = contains_str(text, " at ") && contains_char(text, ':');
    let ls = lines_of(text);
    let mut i: usize = 0;
    let ghost s0 = views(stacks@);
    let ghost m0 = views(messages@);
    let ghost stacks0 = stacks@;
    let ghost messages0 = messages@;
    while i < ls.len()
        invariant
            i <= ls.len(),
            views(ls@) == lines(text@),
            is_stack == is_stack_text(text@),
            is_stack ==> views(stacks@) == s0 + views(ls@).take(i as int) && messages@ == messages0,
            !is_stack ==> views(messages@) == m0 + views(ls@).take(i as int) && stacks@ == stacks0,
        decreases ls.len() - i,
    {
        let line = owned(ls[i].as_str());
        assert(views(ls@).take(i + 1) =~= views(ls@).take(i as int).push(ls@[i as int]@));
        if is_stack {
            let ghost b = views(stacks@);
            stacks.push(line);
            assert(views(stacks@) =~= b.push(ls@[i as int]@));
        } else {
            let ghost b = views(messages@);
            messages.push(line);
            assert(views(messages@) =~= b.push(ls@[i as int]@));
        }
        i = i + 1;
    }
    assert(views(ls@).take(ls.len() as int) =~= views(ls@));
}


/// The lines of a value that is a text which is not blank; nothing for
/// any other value.
pub open spec fn text_lines(v: Option<JsonValue>) -> Seq<Seq<char>> {
    match v {
        Some(JsonValue::Str(t)) => if !is_blank(t@) {
            lines(t@)
        } else {
            Seq::empty()
        },
        _ => Seq::empty(),
    }
}

/// Stack lines and message lines gathered so far.
pub type DetailAcc = (Seq<Seq<char>>, Seq<Seq<char>>);

pub open spec fn add_stacks(acc: DetailAcc, ls: Seq<Seq<char>>) -> DetailAcc {
    (acc.0 + ls, acc.1)
}

pub open spec fn add_messages(acc: DetailAcc, ls: Seq<Seq<char>>) -> DetailAcc {
    (acc.0, acc.1 + ls)
}

pub open spec fn member(v: JsonValue, key: Seq<char>) -> Option<JsonValue> {
    match v {
        JsonValue::Object(ms) => member_of(ms@, key),
        _ => None,
    }
}

/// The keys under which nested lists of errors are looked for.
pub open spec fn nested_list_keys() -> Seq<Seq<char>> {
    seq!["errors"@, "details"@, "issues"@, "inner"@, "causes"@, "aggregatedErrors"@]
}

/// The keys under which nested errors are looked for.
pub open spec fn nested_value_keys() -> Seq<Seq<char>> {
    seq!["error"@, "cause"@, "matcherResult"@, "context"@, "data"@]
}

/// Gathers the lines of a value found `depth` levels down (nothing below
/// depth 3): a text gives message lines; a list, each item one level
/// down; an object, its `message`, `stack`, `expected` and `received`
/// texts, then the items of its nested error lists and its nested errors,
/// one level down.
pub open spec fn visit_deep_spec(v: JsonValue, depth: nat, acc: DetailAcc) -> DetailAcc
    decreases 5 - depth, 0nat, 0nat,
{
    if depth > 3 {
        acc
    } else {
        match v {
            JsonValue::Str(_) => add_messages(acc, text_lines(Some(v))),
            JsonValue::Array(items) => visit_items(items@, depth + 1, acc),
            JsonValue::Object(_) => {
                let a1 = add_messages(acc, text_lines(member(v, "message"@)));
                let a2 = add_stacks(a1, text_lines(member(v, "stack"@)));
                let a3 = add_messages(add_messages(a2, text_lines(member(v, "expected"@))), text_lines(member(v, "received"@)));
                let a4 = visit_lists(v, nested_list_keys(), depth + 1, a3);
                visit_values(v, nested_value_keys(), depth + 1, a4)
            },
            _ => acc,
        }
    }
}

/// The items of a list, in order, each at `depth`.
pub open spec fn visit_items(items: Seq<JsonValue>, depth: nat, acc: DetailAcc) -> DetailAcc
    decreases 5 - depth, 1nat, items.len(),
{
    if items.len() == 0 || depth > 4 {
        acc
    } else {
        visit_items(items.drop_first(), depth, visit_deep_spec(items[0], depth, acc))
    }
}

/// The items of the lists found under each key, key after key.
pub open spec fn visit_lists(v: JsonValue, keys: Seq<Seq<char>>, depth: nat, acc: DetailAcc) -> DetailAcc
    decreases 5 - depth, 2nat, keys.len(),
{
    if keys.len() == 0 || depth > 4 {
        acc
    } else {
        let a = match member(v, keys[0]) {
            Some(JsonValue::Array(items)) => visit_items(items@, depth, acc),
            _ => acc,
        };
        visit_lists(v, keys.drop_first(), depth, a)
    }
}

/// The values found under each key, key after key.
pub open spec fn visit_values(v: JsonValue, keys: Seq<Seq<char>>, depth: nat, acc: DetailAcc) -> DetailAcc
    decreases 5 - depth, 2nat, keys.len(),
{
    if keys.len() == 0 || depth > 4 {
        acc
    } else {
        let a = match member(v, keys[0]) {
            Some(x) => visit_deep_spec(x, depth, acc),
            None => acc,
        };
        visit_values(v, keys.drop_first(), depth, a)
    }
}

fn push_text_lines(v: Option<&JsonValue>, bucket: &mut Vec<String>)
    ensures
        views(final(bucket)@) == views(old(bucket)@) + text_lines(
            match v {
                Some(x) => Some(*x),
                None => None,
            },
        ),
{
    match v {
        Some(JsonValue::Str(t)) => {
            if !is_blank_str(t.as_str()) {
                let ls = lines_of(t.as_str());
                let ghost start = views(bucket@);
                let mut i: usize = 0;
                while i < ls.len()
                    invariant
                        i <= ls.len(),
                        views(bucket@) == start + views(ls@).take(i as int),
                    decreases ls.len() - i,
                {
                    let ghost b = views(bucket@);
                    bucket.push(owned(ls[i].as_str()));
                    assert(views(bucket@) =~= b.push(ls@[i as int]@));
                    assert(views(ls@).take(i + 1) =~= views(ls@).take(i as int).push(ls@[i as int]@));
                    i = i + 1;
                }
                assert(views(ls@).take(ls.len() as int) =~= views(ls@));
            } else {
                assert(views(bucket@) + Seq::<Seq<char>>::empty() =~= views(bucket@));
            }
        },
        _ => {
            assert(views(bucket@) + Seq::<Seq<char>>::empty() =~= views(bucket@));
        },
    }
}

fn member_ref<'a>(v: &'a JsonValue, key: &str) -> (res: Option<&'a JsonValue>)
    ensures
        match res {
            Some(x) => member(*v, key@) == Some(*x),
            None => member(*v, key@) is None,
        },
{
    match v {
        JsonValue::Object(ms) => json_member(ms, key),
        _ => None,
    }
}

fn visit_deep_exec(v: &JsonValue, depth: usize, stacks: &mut Vec<String>, messages: &mut Vec<String>)
    requires
        depth <= 5,
    ensures
        (views(final(stacks)@), views(final(messages)@)) == visit_deep_spec(
            *v,
            depth as nat,
            (views(old(stacks)@), views(old(messages)@)),
        ),
    decreases 5 - depth, 0nat, 0nat,
{
    if depth > 3 {
        return;
    }
    match v {
        JsonValue::Str(_) => {
            push_text_lines(Some(v), messages);
        },
        JsonValue::Array(items) => {
            visit_items_exec(items, 0, depth + 1, stacks, messages);
            assert(items@.skip(0) =~= items@);
        },
        JsonValue::Object(_) => {
            push_text_lines(member_ref(v, "message"), messages);
            push_text_lines(member_ref(v, "stack"), stacks);
            push_text_lines(member_ref(v, "expected"), messages);
            push_text_lines(member_ref(v, "received"), messages);
            let list_keys = ["errors", "details", "issues", "inner", "causes", "aggregatedErrors"];
            let value_keys = ["error", "cause", "matcherResult", "context", "data"];
            assert(list_keys@.map_values(|k: &str| k@) =~= nested_list_keys());
            assert(value_keys@.map_values(|k: &str| k@) =~= nested_value_keys());
            visit_lists_exec(v, &list_keys, 0, depth + 1, stacks, messages);
            visit_values_exec(v, &value_keys, 0, depth + 1, stacks, messages);
            assert(list_keys@.map_values(|k: &str| k@).skip(0) =~= nested_list_keys());
            assert(value_keys@.map_values(|k: &str| k@).skip(0) =~= nested_value_keys());
        },
        _ => {},
    }
}

fn visit_items_exec(
    items: &Vec<JsonValue>,
    from: usize,
    depth: usize,
    stacks: &mut Vec<String>,
    messages: &mut Vec<String>,
)
    requires
        from <= items.len(),
        depth <= 5,
    ensures
        (views(final(stacks)@), views(final(messages)@)) == visit_items(
            items@.skip(from as int),
            depth as nat,
            (views(old(stacks)@), views(old(messages)@)),
        ),
    decreases 5 - depth, 1nat, items.len() - from,
{
    if from >= items.len() || depth > 4 {
        return;
    }
    visit_deep_exec(&items[from], depth, stacks, messages);
    assert(items@.skip(from as int)[0] == items@[from as int]);
    assert(items@.skip(from as int).drop_first() =~= items@.skip(from + 1));
    visit_items_exec(items, from + 1, depth, stacks, messages);
}

fn visit_lists_exec(
    v: &JsonValue,
    keys: &[&str; 6],
    from: usize,
    depth: usize,
    stacks: &mut Vec<String>,
    messages: &mut Vec<String>,
)
    requires
        from <= 6,
        depth <= 5,
    ensures
        (views(final(stacks)@), views(final(messages)@)) == visit_lists(
            *v,
            keys@.map_values(|k: &str| k@).skip(from as int),
            depth as nat,
            (views(old(stacks)@), views(old(messages)@)),
        ),
    decreases 5 - depth, 2nat, 6 - from,
{
    let ghost kv = keys@.map_values(|k: &str| k@);
    if from >= 6 || depth > 4 {
        return;
    }
    assert(kv.skip(from as int)[0] == keys@[from as int]@);
    match member_ref(v, keys[from]) {
        Some(JsonValue::Array(items)) => {
            visit_items_exec(items, 0, depth, stacks, messages);
            assert(items@.skip(0) =~= items@);
        },
        _ => {},
    }
    assert(kv.skip(from as int).drop_first() =~= kv.skip(from + 1));
    visit_lists_exec(v, keys, from + 1, depth, stacks, messages);
}

fn visit_values_exec(
    v: &JsonValue,
    keys: &[&str; 5],
    from: usize,
    depth: usize,
    stacks: &mut Vec<String>,
    messages: &mut Vec<String>,
)
    requires
        from <= 5,
        depth <= 5,
    ensures
        (views(final(stacks)@), views(final(messages)@)) == visit_values(
            *v,
            keys@.map_values(|k: &str| k@).skip(from as int),
            depth as nat,
            (views(old(stacks)@), views(old(messages)@)),
        ),
    decreases 5 - depth, 2nat, 5 - from,
{
    let ghost kv = keys@.map_values(|k: &str| k@);
    if from >= 5 || depth > 4 {
        return;
    }
    assert(kv.skip(from as int)[0] == keys@[from as int]@);
    match member_ref(v, keys[from]) {
        Some(x) => visit_deep_exec(x, depth, stacks, messages),
        None => {},
    }
    assert(kv.skip(from as int).drop_first() =~= kv.skip(from + 1));
    visit_values_exec(v, keys, from + 1, depth, stacks, messages);
}


/// An object's own stack and message texts, those of its `error` object,
/// the texts of its `matcherResult` object (all as message lines), then
/// everything found inside it.
pub open spec fn object_detail_spec(d: JsonValue, acc: DetailAcc) -> DetailAcc {
    let a1 = add_stacks(acc, text_lines(member(d, "stack"@)));
    let a2 = add_messages(a1, text_lines(member(d, "message"@)));
    let a3 = match member(d, "error"@) {
        Some(e) => if e is Object {
            add_messages(add_stacks(a2, text_lines(member(e, "stack"@))), text_lines(member(e, "message"@)))
        } else {
            a2
        },
        None => a2,
    };
    let a4 = match member(d, "matcherResult"@) {
        Some(m) => if m is Object {
            add_messages(
                add_messages(
                    add_messages(add_messages(a3, text_lines(member(m, "stack"@))), text_lines(member(m, "message"@))),
                    text_lines(member(m, "expected"@)),
                ),
                text_lines(member(m, "received"@)),
            )
        } else {
            a3
        },
        None => a3,
    };
    visit_deep_spec(d, 0, a4)
}

/// The lines of one failure detail: a text goes to the stacks when it
/// reads like one and to the messages otherwise; an object as above; the
/// items of a list each from the top.
pub open spec fn detail_spec(d: JsonValue, acc: DetailAcc) -> DetailAcc {
    match d {
        JsonValue::Str(t) => if is_stack_text(t@) {
            add_stacks(acc, lines(t@))
        } else {
            add_messages(acc, lines(t@))
        },
        JsonValue::Object(_) => object_detail_spec(d, acc),
        JsonValue::Array(items) => visit_items(items@, 0, acc),
        _ => acc,
    }
}

pub open spec fn details_fold(ds: Seq<JsonValue>, acc: DetailAcc) -> DetailAcc
    decreases ds.len(),
{
    if ds.len() == 0 {
        acc
    } else {
        details_fold(ds.drop_first(), detail_spec(ds[0], acc))
    }
}

/// The stack lines and message lines of a failure's details (none when it
/// has none).
pub open spec fn lines_from_details_spec(details: Option<Seq<JsonValue>>) -> DetailAcc {
    match details {
        Some(ds) => details_fold(ds, (Seq::empty(), Seq::empty())),
        None => (Seq::empty(), Seq::empty()),
    }
}

fn collect_object_detail(d: &JsonValue, stacks: &mut Vec<String>, messages: &mut Vec<String>)
    ensures
        (views(final(stacks)@), views(final(messages)@)) == object_detail_spec(
            *d,
            (views(old(stacks)@), views(old(messages)@)),
        ),
{
    push_text_lines(member_ref(d, "stack"), stacks);
    push_text_lines(member_ref(d, "message"), messages);
    match member_ref(d, "error") {
        Some(e) => {
            match e {
                JsonValue::Object(_) => {
                    push_text_lines(member_ref(e, "stack"), stacks);
                    push_text_lines(member_ref(e, "message"), messages);
                },
                _ => {},
            }
        },
        None => {},
    }
    match member_ref(d, "matcherResult") {
        Some(m) => {
            match m {
                JsonValue::Object(_) => {
                    push_text_lines(member_ref(m, "stack"), messages);
                    push_text_lines(member_ref(m, "message"), messages);
                    push_text_lines(member_ref(m, "expected"), messages);
                    push_text_lines(member_ref(m, "received"), messages);
                },
                _ => {},
            }
        },
        None => {},
    }
    visit_deep_exec(d, 0, stacks, messages);
}

fn collect_detail_lines(d: &JsonValue, stacks: &mut Vec<String>, messages: &mut Vec<String>)
    ensures
        (views(final(stacks)@), views(final(messages)@)) == detail_spec(
            *d,
            (views(old(stacks)@), views(old(messages)@)),
        ),
{
    match d {
        JsonValue::Str(t) => push_string_detail(t.as_str(), stacks, messages),
        JsonValue::Object(_) => collect_object_detail(d, stacks, messages),
        JsonValue::Array(items) => {
            visit_items_exec(items, 0, 0, stacks, messages);
            assert(items@.skip(0) =~= items@);
        },
        _ => {},
    }
}

/// The stack lines and message lines of a failure's details (see
/// [`lines_from_details_spec`]).
pub fn lines_from_details(details: Option<&Vec<JsonValue>>) -> (res: (Vec<String>, Vec<String>))
    ensures
        (views(res.0@), views(res.1@)) == lines_from_details_spec(
            match details {
                Some(d) => Some(d@),
                None => None,
            },
        ),
{
    let mut stacks: Vec<String> = Vec::new();
    let mut messages: Vec<String> = Vec::new();
    assert(views(stacks@) =~= Seq::<Seq<char>>::empty());
    assert(views(messages@) =~= Seq::<Seq<char>>::empty());
    match details {
        None => (stacks, messages),
        Some(ds) => {
            let mut i: usize = 0;
            assert(ds@.skip(0) =~= ds@);
            while i < ds.len()
                invariant
                    i <= ds.len(),
                    details_fold(ds@, (Seq::empty(), Seq::empty())) == details_fold(
                        ds@.skip(i as int),
                        (views(stacks@), views(messages@)),
                    ),
                decreases ds.len() - i,
            {
                assert(ds@.skip(i as int)[0] == ds@[i as int]);
                assert(ds@.skip(i as int).drop_first() =~= ds@.skip(i + 1));
                collect_detail_lines(&ds[i], &mut stacks, &mut messages);
                i = i + 1;
            }
            assert(ds@.skip(i as int) =~= Seq::<JsonValue>::empty());
            (stacks, messages)
        },
    }
}

} // verus!

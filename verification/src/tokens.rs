//! Token counting for character cards: the card is a tree of texts, and
//! three counts are taken over its distinct texts with the `cl100k_base`
//! tokenizer — the specification fields, the world-book subtree, and the
//! whole card.

use vstd::prelude::*;

use crate::response::TokenCounts;

verus! {

/// A card document: the JSON shapes that token counting reads. Numbers are
/// carried as their rendered decimal text.
pub enum CardValue {
    Null,
    Truth(bool),
    Number(String),
    Text(String),
    List(Vec<CardValue>),
    Object(Vec<(String, CardValue)>),
}

/// The `cl100k_base` token count of a text.
pub uninterp spec fn bpe_count(s: Seq<char>) -> nat;

/// Relies on tiktoken's `cl100k_base` tokenizer (through its process-wide
/// instance) and `encode_with_special_tokens`: the token count of a text
/// depends on its characters alone.
#[verifier::external_body]
fn count_text_tokens(s: &str) -> (r: usize)
    ensures
        r == bpe_count(s@),
{
    tiktoken_rs::cl100k_base_singleton().encode_with_special_tokens(s).len()
}

/// Appends a text to a collection when it is not yet present.
pub open spec fn insert_new(acc: Seq<Seq<char>>, t: Seq<char>) -> Seq<Seq<char>> {
    if acc.contains(t) {
        acc
    } else {
        acc.push(t)
    }
}

/// The rendered text of a boolean.
pub open spec fn bool_text(b: bool) -> Seq<char> {
    if b {
        "true"@
    } else {
        "false"@
    }
}

/// The first value under a field name in an object's field list.
pub open spec fn get_field(fields: Seq<(String, CardValue)>, name: Seq<char>) -> Option<CardValue>
    decreases fields.len(),
{
    if fields.len() == 0 {
        None
    } else if fields[0].0@ == name {
        Some(fields[0].1)
    } else {
        get_field(fields.subrange(1, fields.len() as int), name)
    }
}

/// The value of a field of an object; nothing for other shapes.
pub open spec fn obj_get(v: CardValue, name: Seq<char>) -> Option<CardValue> {
    match v {
        CardValue::Object(fields) => get_field(fields@, name),
        _ => None,
    }
}

/// The texts a single specification-field value contributes: a non-empty
/// string, the non-empty strings of a list, or the rendered text of a
/// number or boolean.
pub open spec fn collect_value(val: CardValue, acc: Seq<Seq<char>>) -> Seq<Seq<char>> {
    match val {
        CardValue::Text(s) => if s@.len() > 0 {
            insert_new(acc, s@)
        } else {
            acc
        },
        CardValue::List(items) => collect_text_items(items@, acc),
        CardValue::Number(n) => insert_new(acc, n@),
        CardValue::Truth(b) => insert_new(acc, bool_text(b)),
        _ => acc,
    }
}

/// The non-empty string items of a list, in order.
pub open spec fn collect_text_items(items: Seq<CardValue>, acc: Seq<Seq<char>>) -> Seq<Seq<char>>
    decreases items.len(),
{
    if items.len() == 0 {
        acc
    } else {
        let acc2 = match items[0] {
            CardValue::Text(s) => if s@.len() > 0 {
                insert_new(acc, s@)
            } else {
                acc
            },
            _ => acc,
        };
        collect_text_items(items.subrange(1, items.len() as int), acc2)
    }
}

/// The specification fields of a card.
pub open spec fn spec_field_names() -> Seq<Seq<char>> {
    seq![
        "description"@,
        "personality"@,
        "scenario"@,
        "first_mes"@,
        "mes_example"@,
        "system_prompt"@,
        "post_history_instructions"@,
        "alternate_greetings"@,
        "talkativeness"@,
    ]
}

/// The texts one field contributes, read at one object.
pub open spec fn collect_field(v: CardValue, name: Seq<char>, acc: Seq<Seq<char>>) -> Seq<
    Seq<char>,
> {
    match obj_get(v, name) {
        Some(val) => collect_value(val, acc),
        None => acc,
    }
}

/// The texts the given fields contribute, each read at the card root and
/// under its `data` object.
pub open spec fn collect_fields(v: CardValue, names: Seq<Seq<char>>, acc: Seq<Seq<char>>) -> Seq<
    Seq<char>,
>
    decreases names.len(),
{
    if names.len() == 0 {
        acc
    } else {
        let a1 = collect_field(v, names[0], acc);
        let a2 = match obj_get(v, "data"@) {
            Some(d) => collect_field(d, names[0], a1),
            None => a1,
        };
        collect_fields(v, names.subrange(1, names.len() as int), a2)
    }
}

/// The distinct texts of the card's specification fields, in first-seen
/// order.
pub open spec fn spec_field_texts(v: CardValue) -> Seq<Seq<char>> {
    collect_fields(v, spec_field_names(), Seq::empty())
}

/// The distinct non-empty strings of a whole subtree, depth first.
pub open spec fn collect_tree(v: CardValue, acc: Seq<Seq<char>>) -> Seq<Seq<char>>
    decreases v,
{
    match v {
        CardValue::Text(s) => if s@.len() > 0 {
            insert_new(acc, s@)
        } else {
            acc
        },
        CardValue::Object(fields) => collect_tree_fields(fields@, acc),
        CardValue::List(items) => collect_tree_items(items@, acc),
        _ => acc,
    }
}

/// The strings of an object's field values, left to right.
pub open spec fn collect_tree_fields(
    fields: Seq<(String, CardValue)>,
    acc: Seq<Seq<char>>,
) -> Seq<Seq<char>>
    decreases fields,
{
    if fields.len() == 0 {
        acc
    } else {
        collect_tree_fields(
            fields.subrange(1, fields.len() as int),
            collect_tree(fields[0].1, acc),
        )
    }
}

/// The strings of a list's items, left to right.
pub open spec fn collect_tree_items(items: Seq<CardValue>, acc: Seq<Seq<char>>) -> Seq<Seq<char>>
    decreases items,
{
    if items.len() == 0 {
        acc
    } else {
        collect_tree_items(items.subrange(1, items.len() as int), collect_tree(items[0], acc))
    }
}

/// The distinct texts of the card's world-book: the `character_book`
/// subtree at the root, then the one under `data`.
pub open spec fn wb_texts(v: CardValue) -> Seq<Seq<char>> {
    let a1 = match obj_get(v, "character_book"@) {
        Some(cb) => collect_tree(cb, Seq::empty()),
        None => Seq::empty(),
    };
    match obj_get(v, "data"@) {
        Some(d) => match obj_get(d, "character_book"@) {
            Some(cb) => collect_tree(cb, a1),
            None => a1,
        },
        None => a1,
    }
}

/// The distinct texts of the whole card: every non-empty string, number,
/// and boolean, skipping the values of `regex_scripts` fields.
pub open spec fn collect_all(v: CardValue, acc: Seq<Seq<char>>) -> Seq<Seq<char>>
    decreases v,
{
    match v {
        CardValue::Text(s) => if s@.len() > 0 {
            insert_new(acc, s@)
        } else {
            acc
        },
        CardValue::Number(n) => insert_new(acc, n@),
        CardValue::Truth(b) => insert_new(acc, bool_text(b)),
        CardValue::Object(fields) => collect_all_fields(fields@, acc),
        CardValue::List(items) => collect_all_items(items@, acc),
        CardValue::Null => acc,
    }
}

/// The texts of an object's field values, skipping `regex_scripts` fields.
pub open spec fn collect_all_fields(
    fields: Seq<(String, CardValue)>,
    acc: Seq<Seq<char>>,
) -> Seq<Seq<char>>
    decreases fields,
{
    if fields.len() == 0 {
        acc
    } else {
        let acc2 = if fields[0].0@ == "regex_scripts"@ {
            acc
        } else {
            collect_all(fields[0].1, acc)
        };
        collect_all_fields(fields.subrange(1, fields.len() as int), acc2)
    }
}

/// The texts of a list's items.
pub open spec fn collect_all_items(items: Seq<CardValue>, acc: Seq<Seq<char>>) -> Seq<Seq<char>>
    decreases items,
{
    if items.len() == 0 {
        acc
    } else {
        collect_all_items(items.subrange(1, items.len() as int), collect_all(items[0], acc))
    }
}

/// The distinct texts of the whole card, in first-seen order.
pub open spec fn all_texts(v: CardValue) -> Seq<Seq<char>> {
    collect_all(v, Seq::empty())
}

/// The summed token count of a list of texts.
pub open spec fn sum_counts(ts: Seq<Seq<char>>) -> nat
    decreases ts.len(),
{
    if ts.len() == 0 {
        0
    } else {
        bpe_count(ts[0]) + sum_counts(ts.subrange(1, ts.len() as int))
    }
}

/// The specification-field token count of a card.
pub open spec fn spec_tokens_of(v: CardValue) -> nat {
    sum_counts(spec_field_texts(v))
}

/// The world-book token count of a card.
pub open spec fn wb_tokens_of(v: CardValue) -> nat {
    sum_counts(wb_texts(v))
}

/// The total token count of a card.
pub open spec fn total_tokens_of(v: CardValue) -> nat {
    sum_counts(all_texts(v))
}


/// The views of a list of owned texts.
pub open spec fn texts_view(s: Seq<String>) -> Seq<Seq<char>> {
    s.map_values(|x: String| x@)
}

/// Copies a text.
pub fn copy_string(s: &String) -> (r: String)
    ensures
        r@ == s@,
{
    s.as_str().to_owned()
}

/// Appends a text to the collection unless it is already present.
fn push_new(acc: Vec<String>, t: String) -> (r: Vec<String>)
    ensures
        texts_view(r@) == insert_new(texts_view(acc@), t@),
{
    let n: usize = acc.len();
    let mut i: usize = 0;
    while i < n
        invariant
            i <= n,
            n == acc@.len(),
            forall|j: int| 0 <= j < i ==> acc@[j]@ != t@,
        decreases n - i,
    {
        if acc[i] == t {
            proof {
                assert(texts_view(acc@)[i as int] == t@);
                assert(texts_view(acc@).contains(t@));
            }
            return acc;
        }
        i = i + 1;
    }
    proof {
        assert(!texts_view(acc@).contains(t@)) by {
            assert(forall|j: int|
                0 <= j < texts_view(acc@).len() ==> texts_view(acc@)[j] != t@);
        }
    }
    let mut acc = acc;
    let ghost before = acc@;
    acc.push(t);
    proof {
        assert(texts_view(acc@) =~= texts_view(before).push(t@));
    }
    acc
}

/// Collects one specification-field value.
fn collect_value_exec(val: &CardValue, acc: Vec<String>) -> (r: Vec<String>)
    ensures
        texts_view(r@) == collect_value(*val, texts_view(acc@)),
{
    match val {
        CardValue::Text(s) => {
            if s.as_str().is_empty() {
                acc
            } else {
                push_new(acc, copy_string(s))
            }
        },
        CardValue::List(items) => {
            proof {
                assert(items@.subrange(0, items@.len() as int) =~= items@);
            }
            collect_text_items_exec(items, 0, acc)
        },
        CardValue::Number(n) => push_new(acc, copy_string(n)),
        CardValue::Truth(b) => {
            if *b {
                push_new(acc, "true".to_owned())
            } else {
                push_new(acc, "false".to_owned())
            }
        },
        _ => acc,
    }
}

/// Collects the non-empty string items of a list, from index `i` on.
fn collect_text_items_exec(items: &Vec<CardValue>, i: usize, acc: Vec<String>) -> (r: Vec<String>)
    requires
        i <= items@.len(),
    ensures
        texts_view(r@) == collect_text_items(
            items@.subrange(i as int, items@.len() as int),
            texts_view(acc@),
        ),
    decreases items@.len() - i,
{
    let n: usize = items.len();
    if i >= n {
        proof {
            assert(items@.subrange(i as int, n as int) =~= Seq::<CardValue>::empty());
        }
        return acc;
    }
    let ghost sub = items@.subrange(i as int, n as int);
    proof {
        assert(sub[0] == items@[i as int]);
        assert(sub.subrange(1, sub.len() as int) =~= items@.subrange(i + 1, n as int));
    }
    let acc2 = match &items[i] {
        CardValue::Text(s) => {
            if s.as_str().is_empty() {
                acc
            } else {
                push_new(acc, copy_string(s))
            }
        },
        _ => acc,
    };
    collect_text_items_exec(items, i + 1, acc2)
}

/// Looks a field up in an object's field list, from index `i` on.
pub fn get_field_exec<'a>(
    fields: &'a Vec<(String, CardValue)>,
    i: usize,
    name: &String,
) -> (r: Option<&'a CardValue>)
    requires
        i <= fields@.len(),
    ensures
        match r {
            Some(c) => get_field(fields@.subrange(i as int, fields@.len() as int), name@) == Some(
                *c,
            ),
            None => get_field(fields@.subrange(i as int, fields@.len() as int), name@) is None,
        },
    decreases fields@.len() - i,
{
    let n: usize = fields.len();
    if i >= n {
        proof {
            assert(fields@.subrange(i as int, n as int) =~= Seq::<(String, CardValue)>::empty());
        }
        return None;
    }
    let ghost sub = fields@.subrange(i as int, n as int);
    proof {
        assert(sub[0] == fields@[i as int]);
        assert(sub.subrange(1, sub.len() as int) =~= fields@.subrange(i + 1, n as int));
    }
    if fields[i].0 == *name {
        Some(&fields[i].1)
    } else {
        get_field_exec(fields, i + 1, name)
    }
}

/// Reads a field of a card object.
pub fn obj_get_exec<'a>(v: &'a CardValue, name: &String) -> (r: Option<&'a CardValue>)
    ensures
        match r {
            Some(c) => obj_get(*v, name@) == Some(*c),
            None => obj_get(*v, name@) is None,
        },
{
    match v {
        CardValue::Object(fields) => {
            proof {
                assert(fields@.subrange(0, fields@.len() as int) =~= fields@);
            }
            get_field_exec(fields, 0, name)
        },
        _ => None,
    }
}

/// Collects one field of one object.
fn collect_field_exec(v: &CardValue, name: &String, acc: Vec<String>) -> (r: Vec<String>)
    ensures
        texts_view(r@) == collect_field(*v, name@, texts_view(acc@)),
{
    match obj_get_exec(v, name) {
        Some(val) => collect_value_exec(val, acc),
        None => acc,
    }
}

/// Collects the given fields at the card root and under `data`, from index
/// `i` on.
fn collect_fields_exec(v: &CardValue, names: &Vec<String>, i: usize, acc: Vec<String>) -> (r: Vec<
    String,
>)
    requires
        i <= names@.len(),
    ensures
        texts_view(r@) == collect_fields(
            *v,
            texts_view(names@).subrange(i as int, names@.len() as int),
            texts_view(acc@),
        ),
    decreases names@.len() - i,
{
    let n: usize = names.len();
    if i >= n {
        proof {
            assert(texts_view(names@).subrange(i as int, n as int) =~= Seq::<Seq<char>>::empty());
        }
        return acc;
    }
    let ghost sub = texts_view(names@).subrange(i as int, n as int);
    proof {
        assert(sub[0] == names@[i as int]@);
        assert(sub.subrange(1, sub.len() as int) =~= texts_view(names@).subrange(i + 1, n as int));
    }
    let a1 = collect_field_exec(v, &names[i], acc);
    let data_name: String = "data".to_owned();
    let a2 = match obj_get_exec(v, &data_name) {
        Some(d) => collect_field_exec(d, &names[i], a1),
        None => a1,
    };
    collect_fields_exec(v, names, i + 1, a2)
}

/// The specification field names, as owned texts.
fn spec_field_names_exec() -> (r: Vec<String>)
    ensures
        texts_view(r@) == spec_field_names(),
{
    let mut r: Vec<String> = Vec::new();
    r.push("description".to_owned());
    r.push("personality".to_owned());
    r.push("scenario".to_owned());
    r.push("first_mes".to_owned());
    r.push("mes_example".to_owned());
    r.push("system_prompt".to_owned());
    r.push("post_history_instructions".to_owned());
    r.push("alternate_greetings".to_owned());
    r.push("talkativeness".to_owned());
    proof {
        assert(texts_view(r@) =~= spec_field_names());
    }
    r
}

/// Collects the distinct non-empty strings of a subtree.
fn collect_tree_exec(v: &CardValue, acc: Vec<String>) -> (r: Vec<String>)
    ensures
        texts_view(r@) == collect_tree(*v, texts_view(acc@)),
    decreases *v,
{
    match v {
        CardValue::Text(s) => {
            if s.as_str().is_empty() {
                acc
            } else {
                push_new(acc, copy_string(s))
            }
        },
        CardValue::Object(fields) => {
            proof {
                assert(fields@.subrange(0, fields@.len() as int) =~= fields@);
            }
            collect_tree_fields_exec(fields, 0, acc)
        },
        CardValue::List(items) => {
            proof {
                assert(items@.subrange(0, items@.len() as int) =~= items@);
            }
            collect_tree_items_exec(items, 0, acc)
        },
        _ => acc,
    }
}

/// Collects a subtree's strings across an object's fields, from index `i`
/// on.
fn collect_tree_fields_exec(
    fields: &Vec<(String, CardValue)>,
    i: usize,
    acc: Vec<String>,
) -> (r: Vec<String>)
    requires
        i <= fields@.len(),
    ensures
        texts_view(r@) == collect_tree_fields(
            fields@.subrange(i as int, fields@.len() as int),
            texts_view(acc@),
        ),
    decreases fields@, fields@.len() - i,
{
    let n: usize = fields.len();
    if i >= n {
        proof {
            assert(fields@.subrange(i as int, n as int) =~= Seq::<(String, CardValue)>::empty());
        }
        return acc;
    }
    let ghost sub = fields@.subrange(i as int, n as int);
    proof {
        assert(sub[0] == fields@[i as int]);
        assert(sub.subrange(1, sub.len() as int) =~= fields@.subrange(i + 1, n as int));
    }
    let acc2 = collect_tree_exec(&fields[i].1, acc);
    collect_tree_fields_exec(fields, i + 1, acc2)
}

/// Collects a subtree's strings across a list's items, from index `i` on.
fn collect_tree_items_exec(items: &Vec<CardValue>, i: usize, acc: Vec<String>) -> (r: Vec<String>)
    requires
        i <= items@.len(),
    ensures
        texts_view(r@) == collect_tree_items(
            items@.subrange(i as int, items@.len() as int),
            texts_view(acc@),
        ),
    decreases items@, items@.len() - i,
{
    let n: usize = items.len();
    if i >= n {
        proof {
            assert(items@.subrange(i as int, n as int) =~= Seq::<CardValue>::empty());
        }
        return acc;
    }
    let ghost sub = items@.subrange(i as int, n as int);
    proof {
        assert(sub[0] == items@[i as int]);
        assert(sub.subrange(1, sub.len() as int) =~= items@.subrange(i + 1, n as int));
    }
    let acc2 = collect_tree_exec(&items[i], acc);
    collect_tree_items_exec(items, i + 1, acc2)
}

/// Collects the distinct texts of the whole card, skipping
/// `regex_scripts` fields.
fn collect_all_exec(v: &CardValue, acc: Vec<String>) -> (r: Vec<String>)
    ensures
        texts_view(r@) == collect_all(*v, texts_view(acc@)),
    decreases *v,
{
    match v {
        CardValue::Text(s) => {
            if s.as_str().is_empty() {
                acc
            } else {
                push_new(acc, copy_string(s))
            }
        },
        CardValue::Number(n) => push_new(acc, copy_string(n)),
        CardValue::Truth(b) => {
            if *b {
                push_new(acc, "true".to_owned())
            } else {
                push_new(acc, "false".to_owned())
            }
        },
        CardValue::Object(fields) => {
            proof {
                assert(fields@.subrange(0, fields@.len() as int) =~= fields@);
            }
            collect_all_fields_exec(fields, 0, acc)
        },
        CardValue::List(items) => {
            proof {
                assert(items@.subrange(0, items@.len() as int) =~= items@);
            }
            collect_all_items_exec(items, 0, acc)
        },
        CardValue::Null => acc,
    }
}

/// Collects whole-card texts across an object's fields, from index `i` on.
fn collect_all_fields_exec(
    fields: &Vec<(String, CardValue)>,
    i: usize,
    acc: Vec<String>,
) -> (r: Vec<String>)
    requires
        i <= fields@.len(),
    ensures
        texts_view(r@) == collect_all_fields(
            fields@.subrange(i as int, fields@.len() as int),
            texts_view(acc@),
        ),
    decreases fields@, fields@.len() - i,
{
    let n: usize = fields.len();
    if i >= n {
        proof {
            assert(fields@.subrange(i as int, n as int) =~= Seq::<(String, CardValue)>::empty());
        }
        return acc;
    }
    let ghost sub = fields@.subrange(i as int, n as int);
    proof {
        assert(sub[0] == fields@[i as int]);
        assert(sub.subrange(1, sub.len() as int) =~= fields@.subrange(i + 1, n as int));
    }
    let skip_name: String = "regex_scripts".to_owned();
    let acc2 = if fields[i].0 == skip_name {
        acc
    } else {
        collect_all_exec(&fields[i].1, acc)
    };
    collect_all_fields_exec(fields, i + 1, acc2)
}

/// Collects whole-card texts across a list's items, from index `i` on.
fn collect_all_items_exec(items: &Vec<CardValue>, i: usize, acc: Vec<String>) -> (r: Vec<String>)
    requires
        i <= items@.len(),
    ensures
        texts_view(r@) == collect_all_items(
            items@.subrange(i as int, items@.len() as int),
            texts_view(acc@),
        ),
    decreases items@, items@.len() - i,
{
    let n: usize = items.len();
    if i >= n {
        proof {
            assert(items@.subrange(i as int, n as int) =~= Seq::<CardValue>::empty());
        }
        return acc;
    }
    let ghost sub = items@.subrange(i as int, n as int);
    proof {
        assert(sub[0] == items@[i as int]);
        assert(sub.subrange(1, sub.len() as int) =~= items@.subrange(i + 1, n as int));
    }
    let acc2 = collect_all_exec(&items[i], acc);
    collect_all_items_exec(items, i + 1, acc2)
}

/// Sums the token counts of the collected texts; nothing on overflow.
fn sum_text_counts(ts: &Vec<String>) -> (r: Option<u64>)
    ensures
        r is Some ==> r->0 == sum_counts(texts_view(ts@)),
        r is None ==> sum_counts(texts_view(ts@)) > u64::MAX,
{
    let n: usize = ts.len();
    let mut acc: u64 = 0;
    let mut i: usize = 0;
    proof {
        assert(texts_view(ts@).subrange(0, n as int) =~= texts_view(ts@));
    }
    while i < n
        invariant
            i <= n,
            n == ts@.len(),
            sum_counts(texts_view(ts@)) == acc + sum_counts(
                texts_view(ts@).subrange(i as int, n as int),
            ),
        decreases n - i,
    {
        let ghost sub = texts_view(ts@).subrange(i as int, n as int);
        proof {
            assert(sub[0] == ts@[i as int]@);
            assert(sub.subrange(1, sub.len() as int) =~= texts_view(ts@).subrange(
                i + 1,
                n as int,
            ));
        }
        let c = count_text_tokens(ts[i].as_str());
        acc = match acc.checked_add(c as u64) {
            Some(a) => a,
            None => {
                proof {
                    assert(sum_counts(sub) == bpe_count(sub[0]) + sum_counts(
                        sub.subrange(1, sub.len() as int),
                    ));
                }
                return None;
            },
        };
        i = i + 1;
    }
    proof {
        assert(texts_view(ts@).subrange(n as int, n as int) =~= Seq::<Seq<char>>::empty());
    }
    Some(acc)
}

/// Counts a card's tokens: the specification fields, the world-book, the
/// whole card, and the remainder. Nothing exactly when one of the three
/// sums leaves the `i32` range.
pub fn card_token_counts(v: &CardValue) -> (r: Option<TokenCounts>)
    ensures
        r is Some ==> {
            let t = total_tokens_of(*v);
            let s = spec_tokens_of(*v);
            let w = wb_tokens_of(*v);
            &&& t <= i32::MAX
            &&& s <= i32::MAX
            &&& w <= i32::MAX
            &&& r->0.total == t
            &&& r->0.spec_tokens == s
            &&& r->0.wb == w
            &&& r->0.other == if t >= s + w {
                t - s - w
            } else {
                0
            }
        },
        r is None ==> total_tokens_of(*v) > i32::MAX || spec_tokens_of(*v) > i32::MAX
            || wb_tokens_of(*v) > i32::MAX,
{
    let names = spec_field_names_exec();
    let spec_list = collect_fields_exec(v, &names, 0, Vec::new());
    proof {
        assert(texts_view(Seq::<String>::empty()) =~= Seq::<Seq<char>>::empty());
        assert(texts_view(names@).subrange(0, names@.len() as int) =~= texts_view(names@));
    }
    let cb_name: String = "character_book".to_owned();
    let data_name: String = "data".to_owned();
    let empty1: Vec<String> = Vec::new();
    let wb1 = match obj_get_exec(v, &cb_name) {
        Some(cb) => collect_tree_exec(cb, empty1),
        None => empty1,
    };
    let wb_list = match obj_get_exec(v, &data_name) {
        Some(d) => {
            match obj_get_exec(d, &cb_name) {
                Some(cb) => collect_tree_exec(cb, wb1),
                None => wb1,
            }
        },
        None => wb1,
    };
    let empty2: Vec<String> = Vec::new();
    let all_list = collect_all_exec(v, empty2);
    let s = match sum_text_counts(&spec_list) {
        Some(x) => x,
        None => {
            return None;
        },
    };
    let w = match sum_text_counts(&wb_list) {
        Some(x) => x,
        None => {
            return None;
        },
    };
    let t = match sum_text_counts(&all_list) {
        Some(x) => x,
        None => {
            return None;
        },
    };
    if t > 0x7fff_ffffu64 || s > 0x7fff_ffffu64 || w > 0x7fff_ffffu64 {
        return None;
    }
    let other: u64 = if t >= s + w {
        t - s - w
    } else {
        0
    };
    Some(
        TokenCounts {
            total: t as i32,
            spec_tokens: s as i32,
            wb: w as i32,
            other: other as i32,
        },
    )
}

/// Counts a card's tokens, falling back to all-zero counts exactly when a
/// sum leaves the `i32` range.
pub fn calculate_card_tokens(v: &CardValue) -> (r: TokenCounts)
    ensures
        ({
            let t = total_tokens_of(*v);
            let s = spec_tokens_of(*v);
            let w = wb_tokens_of(*v);
            &&& (t <= i32::MAX && s <= i32::MAX && w <= i32::MAX) ==> (r.total == t
                && r.spec_tokens == s && r.wb == w && r.other == if t >= s + w {
                t - s - w
            } else {
                0
            })
            &&& (t > i32::MAX || s > i32::MAX || w > i32::MAX) ==> (r.total == 0 && r.spec_tokens
                == 0 && r.wb == 0 && r.other == 0)
        }),
{
    match card_token_counts(v) {
        Some(c) => c,
        None => TokenCounts { total: 0, spec_tokens: 0, wb: 0, other: 0 },
    }
}

} // verus!

//! Restoring a card snapshot: the denormalized fields that a stored
//! version's JSON text carries are read back out of the card tree, so the
//! card record can be overwritten with them.

use vstd::prelude::*;
use vstd::string::StrSliceExecFns;

use crate::tokens::{copy_string, obj_get, obj_get_exec, texts_view, CardValue};

verus! {

/// A request to snapshot the current state of a card as a named version.
pub struct CreateVersionRequest {
    pub version_number: String,
    pub note: Option<String>,
}

/// Where the tags of a restored card come from: the snapshot's own tag
/// list, texts split out of a comma-separated tag string, or nowhere.
pub enum TagDecision {
    /// The snapshot's `tags` field is a list; it is stored as it stands.
    KeepList,
    /// The snapshot's `tags` field is a text; these are its comma-separated
    /// pieces, trimmed, with empty pieces dropped.
    SplitText(Vec<String>),
    /// The snapshot has no usable `tags` field; the stored list is empty.
    NoTags,
}

/// The denormalized fields read out of a version snapshot.
pub struct CardFields {
    pub name: Option<String>,
    pub description: Option<String>,
    pub author: Option<String>,
    pub spec_name: Option<String>,
    pub spec_version: Option<String>,
    pub tags: TagDecision,
}

/// The object that carries a card's fields: the `data` object when the
/// snapshot has one, the root otherwise.
pub open spec fn card_data_of(json: CardValue) -> CardValue {
    match obj_get(json, "data"@) {
        Some(d) => match d {
            CardValue::Object(fields) => CardValue::Object(fields),
            _ => json,
        },
        None => json,
    }
}

/// The text of a field, when the field holds one.
pub open spec fn field_text(v: CardValue, name: Seq<char>) -> Option<Seq<char>> {
    match obj_get(v, name) {
        Some(val) => match val {
            CardValue::Text(s) => Some(s@),
            _ => None,
        },
        _ => None,
    }
}

/// The author of a card: its `creator` text, or failing that its
/// `creator_notes` text.
pub open spec fn author_text(cd: CardValue) -> Option<Seq<char>> {
    match field_text(cd, "creator"@) {
        Some(a) => Some(a),
        None => field_text(cd, "creator_notes"@),
    }
}

/// The count of characters of `s` before its first comma.
pub open spec fn first_comma(s: Seq<char>) -> nat
    decreases s.len(),
{
    if s.len() == 0 || s[0] == ',' {
        0
    } else {
        (1 + first_comma(s.skip(1))) as nat
    }
}

/// The comma-separated pieces of a text, in order, separators dropped.
pub open spec fn split_commas(s: Seq<char>) -> Seq<Seq<char>>
    decreases s.len(),
{
    let k = first_comma(s);
    if k >= s.len() {
        seq![s]
    } else {
        seq![s.take(k as int)] + split_commas(s.skip(k as int + 1))
    }
}

/// What trimming leading and trailing whitespace leaves of a text.
pub uninterp spec fn trim_of(s: Seq<char>) -> Seq<char>;

/// Relies on `str::trim`: the trimmed text depends on the characters
/// alone.
#[verifier::external_body]
pub(crate) fn trim_str(s: &str) -> (r: String)
    ensures
        r@ == trim_of(s@),
{
    s.trim().to_string()
}

/// Trims every piece and drops the pieces that trim to nothing.
pub open spec fn clean_pieces(pieces: Seq<Seq<char>>) -> Seq<Seq<char>>
    decreases pieces.len(),
{
    if pieces.len() == 0 {
        pieces
    } else {
        let rest = clean_pieces(pieces.subrange(1, pieces.len() as int));
        if trim_of(pieces[0]).len() > 0 {
            seq![trim_of(pieces[0])] + rest
        } else {
            rest
        }
    }
}

/// The tag texts of a comma-separated tag string.
pub open spec fn tag_split(s: Seq<char>) -> Seq<Seq<char>> {
    clean_pieces(split_commas(s))
}

/// The first comma of `s` sits at `k` when everything before `k` is not a
/// comma and `k` is a comma or the end.
proof fn lemma_first_comma_at(s: Seq<char>, k: int)
    requires
        0 <= k <= s.len(),
        forall|j: int| 0 <= j < k ==> s[j] != ',',
        k < s.len() ==> s[k] == ',',
    ensures
        first_comma(s) == k,
    decreases k,
{
    if k > 0 {
        lemma_first_comma_at(s.skip(1), k - 1);
    }
}

/// Cleaning distributes over concatenation of piece lists.
proof fn lemma_clean_concat(a: Seq<Seq<char>>, b: Seq<Seq<char>>)
    ensures
        clean_pieces(a + b) == clean_pieces(a) + clean_pieces(b),
    decreases a.len(),
{
    if a.len() == 0 {
        assert(a + b =~= b);
        assert(clean_pieces(a) + clean_pieces(b) =~= clean_pieces(b));
    } else {
        lemma_clean_concat(a.subrange(1, a.len() as int), b);
        assert((a + b).subrange(1, (a + b).len() as int) =~= a.subrange(1, a.len() as int) + b);
        assert((a + b)[0] == a[0]);
        if trim_of(a[0]).len() > 0 {
            assert(seq![trim_of(a[0])] + (clean_pieces(a.subrange(1, a.len() as int))
                + clean_pieces(b)) =~= (seq![trim_of(a[0])] + clean_pieces(
                a.subrange(1, a.len() as int),
            )) + clean_pieces(b));
        }
    }
}

/// Splits a comma-separated tag text into its trimmed, non-empty pieces.
pub fn split_tags(s: &String) -> (r: Vec<String>)
    ensures
        texts_view(r@) == tag_split(s@),
{
    let total: usize = s.as_str().unicode_len();
    let mut out: Vec<String> = Vec::new();
    let mut pos: usize = 0;
    proof {
        assert(s@.skip(0) =~= s@);
        assert(texts_view(out@) =~= Seq::<Seq<char>>::empty());
    }
    loop
        invariant
            pos <= total,
            total == s@.len(),
            tag_split(s@) == texts_view(out@) + clean_pieces(split_commas(s@.skip(pos as int))),
        decreases total - pos + 1,
    {
        let ghost rem = s@.skip(pos as int);
        let mut k: usize = pos;
        while k < total && s.as_str().get_char(k) != ','
            invariant
                pos <= k <= total,
                total == s@.len(),
                forall|j: int| pos <= j < k ==> s@[j] != ',',
            decreases total - k,
        {
            k = k + 1;
        }
        proof {
            lemma_first_comma_at(rem, k - pos);
            assert(rem.take(k - pos) =~= s@.subrange(pos as int, k as int));
        }
        let piece = s.as_str().substring_char(pos, k);
        let trimmed = trim_str(piece);
        let ghost old_out = out@;
        if !trimmed.as_str().is_empty() {
            out.push(trimmed);
            proof {
                assert(texts_view(out@) =~= texts_view(old_out).push(trim_of(rem.take(k - pos))));
            }
        }
        if k == total {
            proof {
                assert(first_comma(rem) == rem.len());
                assert(split_commas(rem) =~= seq![rem]);
                assert(rem.take(k - pos) =~= rem);
                assert(clean_pieces(Seq::<Seq<char>>::empty()) =~= Seq::<Seq<char>>::empty());
                assert(seq![rem].subrange(1, 1) =~= Seq::<Seq<char>>::empty());
                assert(clean_pieces(seq![rem]) =~= if trim_of(rem).len() > 0 {
                    seq![trim_of(rem)]
                } else {
                    Seq::<Seq<char>>::empty()
                });
                if trim_of(rem).len() > 0 {
                    assert(texts_view(out@) =~= texts_view(old_out) + seq![trim_of(rem)]);
                } else {
                    assert(texts_view(out@) + Seq::<Seq<char>>::empty() =~= texts_view(out@));
                }
                assert(tag_split(s@) == texts_view(out@));
            }
            return out;
        }
        proof {
            let ghost head = rem.take(k - pos);
            let ghost tail = split_commas(rem.skip(k - pos + 1));
            assert(split_commas(rem) == seq![head] + tail);
            lemma_clean_concat(seq![head], tail);
            assert(clean_pieces(Seq::<Seq<char>>::empty()) =~= Seq::<Seq<char>>::empty());
            assert(seq![head].subrange(1, 1) =~= Seq::<Seq<char>>::empty());
            assert(clean_pieces(seq![head]) =~= if trim_of(head).len() > 0 {
                seq![trim_of(head)]
            } else {
                Seq::<Seq<char>>::empty()
            });
            if trim_of(head).len() > 0 {
                assert(texts_view(out@) =~= texts_view(old_out) + seq![trim_of(head)]);
                assert((texts_view(old_out) + seq![trim_of(head)]) + clean_pieces(tail)
                    =~= texts_view(old_out) + (seq![trim_of(head)] + clean_pieces(tail)));
            } else {
                assert(texts_view(out@) == texts_view(old_out));
            }
            assert(rem.skip(k - pos + 1) =~= s@.skip(k + 1));
            assert(tag_split(s@) == texts_view(out@) + clean_pieces(split_commas(s@.skip(k + 1))));
        }
        pos = k + 1;
    }
}

/// True when two optional texts agree.
pub open spec fn opt_text_is(r: Option<String>, t: Option<Seq<char>>) -> bool {
    match r {
        Some(s) => t is Some && s@ == t->0,
        None => t is None,
    }
}

/// Reads the text of a field, owned.
fn field_text_exec(v: &CardValue, name: &String) -> (r: Option<String>)
    ensures
        opt_text_is(r, field_text(*v, name@)),
{
    match obj_get_exec(v, name) {
        Some(val) => match val {
            CardValue::Text(s) => Some(copy_string(s)),
            _ => None,
        },
        _ => None,
    }
}

/// Reads the denormalized card fields out of a version snapshot: the name,
/// description, author, specification label and version, and the tag
/// decision, exactly as the snapshot's `data` object (or its root) carries
/// them.
pub fn extract_card_fields(json: &CardValue) -> (r: CardFields)
    ensures
        opt_text_is(r.name, field_text(card_data_of(*json), "name"@)),
        opt_text_is(r.description, field_text(card_data_of(*json), "description"@)),
        opt_text_is(r.author, author_text(card_data_of(*json))),
        opt_text_is(r.spec_name, field_text(*json, "spec"@)),
        opt_text_is(r.spec_version, field_text(*json, "spec_version"@)),
        match r.tags {
            TagDecision::KeepList => obj_get(card_data_of(*json), "tags"@) matches Some(
                CardValue::List(_),
            ),
            TagDecision::SplitText(pieces) => obj_get(card_data_of(*json), "tags"@) matches Some(
                CardValue::Text(t),
            ) && texts_view(pieces@) == tag_split(t@),
            TagDecision::NoTags => match obj_get(card_data_of(*json), "tags"@) {
                Some(CardValue::List(_)) => false,
                Some(CardValue::Text(_)) => false,
                _ => true,
            },
        },
{
    let data_name: String = "data".to_owned();
    let cd: &CardValue = match obj_get_exec(json, &data_name) {
        Some(d) => match d {
            CardValue::Object(_) => d,
            _ => json,
        },
        None => json,
    };
    let name = field_text_exec(cd, &"name".to_owned());
    let description = field_text_exec(cd, &"description".to_owned());
    let author = match field_text_exec(cd, &"creator".to_owned()) {
        Some(a) => Some(a),
        None => field_text_exec(cd, &"creator_notes".to_owned()),
    };
    let spec_name = field_text_exec(json, &"spec".to_owned());
    let spec_version = field_text_exec(json, &"spec_version".to_owned());
    let tags = match obj_get_exec(cd, &"tags".to_owned()) {
        Some(tv) => match tv {
            CardValue::List(_) => TagDecision::KeepList,
            CardValue::Text(t) => TagDecision::SplitText(split_tags(t)),
            _ => TagDecision::NoTags,
        },
        None => TagDecision::NoTags,
    };
    CardFields { name, description, author, spec_name, spec_version, tags }
}

} // verus!

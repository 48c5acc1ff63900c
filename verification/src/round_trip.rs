//! What writing a link and reading it back preserve.

use vstd::prelude::*;
use crate::link::LinkView;
use crate::notation::{
    Tag, Trailing, annotation, annotations, blank, decode, decode_onto, default_rel, encode,
    lemma_trailing_starts_inside, optional_annotation, tag_of, tag_text, trailing, with_field,
};

verus! {

/// Whether a value can stand in an annotation and be read back: it holds
/// neither an opening bracket nor an equals sign.
pub open spec fn readable(value: Seq<char>) -> bool {
    !value.contains('[') && !value.contains('=')
}

/// Whether a value that may be absent is readable where it is present.
pub open spec fn readable_if_present(value: Option<Seq<char>>) -> bool {
    match value {
        Some(v) => readable(v),
        None => true,
    }
}

/// Whether a link is one that reading can give back: no annotation ends its
/// URL, and its relation, media type, language and title are readable.
pub open spec fn plain(link: LinkView) -> bool {
    &&& trailing(link.href) is None
    &&& readable(link.rel)
    &&& readable_if_present(link.mime_type)
    &&& readable_if_present(link.hreflang)
    &&& readable_if_present(link.title)
}

/// The place of a tag's annotation among the annotations of a link.
pub open spec fn place(tag: Tag) -> int {
    match tag {
        Tag::Rel => 0,
        Tag::Type => 1,
        Tag::Lang => 2,
        Tag::Title => 3,
    }
}

/// Whether the annotations that end `text`, read from the right, come in
/// falling order of place, all below `above`, down to a relation that is not
/// empty.
pub open spec fn in_order(text: Seq<char>, above: int) -> bool
    decreases text.len(),
{
    match trailing(text) {
        Some(found) => {
            proof {
                lemma_trailing_starts_inside(text);
            }
            &&& place(found.tag) < above
            &&& (found.tag is Rel ==> found.value.len() > 0)
            &&& in_order(text.take(found.start), place(found.tag))
        },
        None => above == 0,
    }
}

/// Whether `text` is written the way [`encode`] writes: its annotations are
/// a relation that is not empty, then at most one each of media type,
/// language and title, in that order.
pub open spec fn canonical(text: Seq<char>) -> bool {
    in_order(text, 4)
}

/// The tag texts, letter by letter.
pub proof fn lemma_tag_texts()
    ensures
        tag_text(Tag::Rel) =~= seq!['r', 'e', 'l', '='],
        tag_text(Tag::Type) =~= seq!['t', 'y', 'p', 'e', '='],
        tag_text(Tag::Lang) =~= seq!['l', 'a', 'n', 'g', '='],
        tag_text(Tag::Title) =~= seq!['t', 'i', 't', 'l', 'e', '='],
        "["@ =~= seq!['['],
        "]"@ =~= seq![']'],
        default_rel() =~= seq!['r', 'e', 'l', 'a', 't', 'e', 'd'],
{
    reveal_strlit("rel=");
    reveal_strlit("type=");
    reveal_strlit("lang=");
    reveal_strlit("title=");
    reveal_strlit("[");
    reveal_strlit("]");
    reveal_strlit("related");
}

/// A tag text spells its own tag and no other; it ends in the equals sign,
/// which is its only one, and holds no bracket.
pub proof fn lemma_tag_text_shape(tag: Tag)
    ensures
        tag_of(tag_text(tag)) == Some(tag),
        tag_text(tag).len() >= 4,
        tag_text(tag).last() == '=',
        forall|i: int| 0 <= i < tag_text(tag).len() - 1 ==> tag_text(tag)[i] != '=',
        forall|i: int| 0 <= i < tag_text(tag).len() ==> tag_text(tag)[i] != '[',
        forall|i: int| 0 <= i < tag_text(tag).len() ==> tag_text(tag)[i] != ']',
{
    lemma_tag_texts();
    let rel = tag_text(Tag::Rel);
    let ty = tag_text(Tag::Type);
    let lang = tag_text(Tag::Lang);
    let title = tag_text(Tag::Title);
    assert(rel.len() == 4 && ty.len() == 5 && lang.len() == 5 && title.len() == 6);
    assert(ty[0] == 't' && lang[0] == 'l');
}

/// Where the last occurrence of a character is, given that it is there and
/// nowhere after.
pub proof fn lemma_last_occurrence(text: Seq<char>, c: char, at: int)
    requires
        0 <= at < text.len(),
        text[at] == c,
        forall|j: int| at < j < text.len() ==> text[j] != c,
    ensures
        text.index_of_last(c) == Some(at),
{
    text.index_of_last_ensures(c);
    assert(text.contains(c));
}

/// A trailing annotation is the end of the text, written out, and its value
/// is readable.
pub proof fn lemma_trailing_shape(text: Seq<char>)
    ensures
        trailing(text) matches Some(found) ==> {
            &&& 0 <= found.start < text.len()
            &&& text == text.take(found.start) + annotation(found.tag, found.value)
            &&& readable(found.value)
        },
{
    if let Some(found) = trailing(text) {
        text.index_of_last_ensures('[');
        text.index_of_last_ensures('=');
        lemma_tag_texts();
        lemma_tag_text_shape(found.tag);
        let open = text.index_of_last('[').unwrap();
        let eq = text.index_of_last('=').unwrap();
        let key = text.subrange(open + 1, eq + 1);
        assert(key == tag_text(found.tag));
        assert(eq < text.len() - 1);
        let value = text.subrange(eq + 1, text.len() - 1);
        assert(text =~= text.take(open) + annotation(found.tag, value)) by {
            let written = text.take(open) + annotation(found.tag, value);
            assert(written.len() == text.len());
            assert forall|i: int| 0 <= i < text.len() implies text[i] == written[i] by {
                if i > open && i <= eq {
                    assert(key[i - open - 1] == text[i]);
                }
            }
        }
        assert(!value.contains('[')) by {
            if value.contains('[') {
                let i = choose|i: int| 0 <= i < value.len() && value[i] == '[';
                assert(text[eq + 1 + i] == '[');
            }
        }
        assert(!value.contains('=')) by {
            if value.contains('=') {
                let i = choose|i: int| 0 <= i < value.len() && value[i] == '=';
                assert(text[eq + 1 + i] == '=');
            }
        }
    }
}

/// An annotation with a readable value, written at the end of any text, is
/// the annotation that reading finds there.
pub proof fn lemma_reads_annotation(front: Seq<char>, tag: Tag, value: Seq<char>)
    requires
        readable(value),
    ensures
        trailing(front + annotation(tag, value)) == Some(
            Trailing { start: front.len() as int, tag, value },
        ),
{
    lemma_tag_texts();
    lemma_tag_text_shape(tag);
    let key = tag_text(tag);
    let text = front + annotation(tag, value);
    let open = front.len() as int;
    let eq = open + key.len();
    assert(text.len() == open + 1 + key.len() + value.len() + 1);
    assert(text.last() == ']');
    assert(text[open] == '[');
    assert(text[eq] == '=') by {
        assert(text[eq] == key[key.len() - 1]);
    }
    assert forall|j: int| open < j < text.len() implies text[j] != '[' by {
        if j <= eq {
            assert(text[j] == key[j - open - 1]);
        } else if j < text.len() - 1 {
            assert(text[j] == value[j - eq - 1]);
            assert(value.contains(value[j - eq - 1]));
        }
    }
    assert forall|j: int| eq < j < text.len() implies text[j] != '=' by {
        if j < text.len() - 1 {
            assert(text[j] == value[j - eq - 1]);
            assert(value.contains(value[j - eq - 1]));
        }
    }
    lemma_last_occurrence(text, '[', open);
    lemma_last_occurrence(text, '=', eq);
    assert(text.subrange(open + 1, eq + 1) =~= key);
    assert(text.subrange(eq + 1, text.len() - 1) =~= value);
}

/// Reading onto a link whose values are readable gives a plain link.
pub proof fn lemma_decode_onto_plain(text: Seq<char>, link: LinkView)
    requires
        readable(link.rel),
        readable_if_present(link.mime_type),
        readable_if_present(link.hreflang),
        readable_if_present(link.title),
    ensures
        plain(decode_onto(text, link)),
    decreases text.len(),
{
    lemma_trailing_shape(text);
    if let Some(found) = trailing(text) {
        lemma_decode_onto_plain(
            text.take(found.start),
            with_field(link, found.tag, found.value),
        );
    }
}

/// Whatever the text, the link read from it is plain.
pub proof fn lemma_decoded_is_plain(text: Seq<char>)
    ensures
        plain(decode(text)),
{
    lemma_tag_texts();
    lemma_decode_onto_plain(text, blank());
}

/// The annotations of a link whose place is below `above`.
spec fn annotations_below(link: LinkView, above: int) -> Seq<char> {
    (if above > 0 && link.rel.len() > 0 {
        annotation(Tag::Rel, link.rel)
    } else {
        Seq::empty()
    }) + (if above > 1 {
        optional_annotation(Tag::Type, link.mime_type)
    } else {
        Seq::empty()
    }) + (if above > 2 {
        optional_annotation(Tag::Lang, link.hreflang)
    } else {
        Seq::empty()
    }) + (if above > 3 {
        optional_annotation(Tag::Title, link.title)
    } else {
        Seq::empty()
    })
}

/// Reading a text whose annotations are in order, onto a link that has no
/// field of their places yet, gives a link whose URL and annotations below
/// `above` spell the text; the fields of the other places stay.
proof fn lemma_in_order_rebuilds(text: Seq<char>, link: LinkView, above: int)
    requires
        0 <= above <= 4,
        in_order(text, above),
        above > 1 ==> link.mime_type is None,
        above > 2 ==> link.hreflang is None,
        above > 3 ==> link.title is None,
    ensures
        ({
            let read = decode_onto(text, link);
            &&& read.href + annotations_below(read, above) == text
            &&& above <= 0 ==> read.rel == link.rel
            &&& above <= 1 ==> read.mime_type == link.mime_type
            &&& above <= 2 ==> read.hreflang == link.hreflang
            &&& above <= 3 ==> read.title == link.title
            &&& read.length == link.length
        }),
    decreases text.len(),
{
    lemma_trailing_shape(text);
    let read = decode_onto(text, link);
    match trailing(text) {
        Some(found) => {
            let rest = text.take(found.start);
            let next = with_field(link, found.tag, found.value);
            let below = place(found.tag);
            lemma_in_order_rebuilds(rest, next, below);
            assert(read == decode_onto(rest, next));
            assert(annotations_below(read, above) =~= annotations_below(read, below) + annotation(
                found.tag,
                found.value,
            ));
            assert(read.href + annotations_below(read, above) =~= rest + annotation(
                found.tag,
                found.value,
            ));
        },
        None => {
            assert(read.href + annotations_below(read, above) =~= text);
        },
    }
}

/// A canonical text is written again exactly as it was read.
pub proof fn lemma_canonical_is_kept(text: Seq<char>)
    requires
        canonical(text),
    ensures
        encode(decode(text)) == text,
{
    lemma_in_order_rebuilds(text, blank(), 4);
    let read = decode(text);
    assert(annotations(read) =~= annotations_below(read, 4));
}

/// The value that reading leaves in a field: the one written, or the one
/// that was there where none was written.
pub open spec fn written_or(written: Option<Seq<char>>, before: Option<Seq<char>>) -> Option<
    Seq<char>,
> {
    match written {
        Some(v) => Some(v),
        None => before,
    }
}

/// `onto` with the field of `tag` set to `value`, where there is a value.
spec fn with_written(onto: LinkView, tag: Tag, value: Option<Seq<char>>) -> LinkView {
    match value {
        Some(v) => with_field(onto, tag, v),
        None => onto,
    }
}

/// Reading a text that ends in the annotation of a readable value first
/// sets the field of that value and then reads the text before it.
proof fn lemma_reads_last(front: Seq<char>, tag: Tag, value: Option<Seq<char>>, onto: LinkView)
    requires
        readable_if_present(value),
    ensures
        decode_onto(front + optional_annotation(tag, value), onto) == decode_onto(
            front,
            with_written(onto, tag, value),
        ),
        value is None ==> front + optional_annotation(tag, value) == front,
        value matches Some(v) ==> trailing(front + optional_annotation(tag, value)) == Some(
            Trailing { start: front.len() as int, tag, value: v },
        ) && (front + optional_annotation(tag, value)).take(front.len() as int) == front,
{
    let text = front + optional_annotation(tag, value);
    match value {
        Some(v) => {
            lemma_reads_annotation(front, tag, v);
            assert(text.take(front.len() as int) =~= front);
        },
        None => {
            assert(text =~= front);
        },
    }
}

/// A text that ends in an annotation and is in order below one place is in
/// order below every higher place.
proof fn lemma_in_order_higher(text: Seq<char>, above: int, higher: int)
    requires
        in_order(text, above),
        1 <= above <= higher,
    ensures
        in_order(text, higher),
{
}

/// A written relation, as a value that is absent where the relation is empty.
spec fn written_rel(link: LinkView) -> Option<Seq<char>> {
    if link.rel.len() > 0 {
        Some(link.rel)
    } else {
        None
    }
}

/// Reading the text of a plain link onto any link takes every annotation in
/// turn and stops at the URL; and where the relation is not empty, the text
/// is canonical.
pub proof fn lemma_reads_plain(link: LinkView, onto: LinkView)
    requires
        plain(link),
    ensures
        decode_onto(encode(link), onto) == (LinkView {
            href: link.href,
            rel: if link.rel.len() > 0 {
                link.rel
            } else {
                onto.rel
            },
            hreflang: written_or(link.hreflang, onto.hreflang),
            mime_type: written_or(link.mime_type, onto.mime_type),
            title: written_or(link.title, onto.title),
            length: onto.length,
        }),
        link.rel.len() > 0 ==> canonical(encode(link)),
{
    let w0 = link.href;
    let w1 = w0 + optional_annotation(Tag::Rel, written_rel(link));
    let w2 = w1 + optional_annotation(Tag::Type, link.mime_type);
    let w3 = w2 + optional_annotation(Tag::Lang, link.hreflang);
    let w4 = w3 + optional_annotation(Tag::Title, link.title);
    assert(w4 =~= encode(link));
    let o3 = with_written(onto, Tag::Title, link.title);
    let o2 = with_written(o3, Tag::Lang, link.hreflang);
    let o1 = with_written(o2, Tag::Type, link.mime_type);
    let o0 = with_written(o1, Tag::Rel, written_rel(link));
    lemma_reads_last(w3, Tag::Title, link.title, onto);
    lemma_reads_last(w2, Tag::Lang, link.hreflang, o3);
    lemma_reads_last(w1, Tag::Type, link.mime_type, o2);
    lemma_reads_last(w0, Tag::Rel, written_rel(link), o1);
    assert(decode_onto(w0, o0) == LinkView { href: w0, ..o0 });
    if link.rel.len() > 0 {
        assert(in_order(w0, 0));
        assert(in_order(w1, 1));
        if link.mime_type is None {
            lemma_in_order_higher(w1, 1, 2);
        }
        assert(in_order(w2, 2));
        if link.hreflang is None {
            lemma_in_order_higher(w2, 2, 3);
        }
        assert(in_order(w3, 3));
        if link.title is None {
            lemma_in_order_higher(w3, 3, 4);
        }
        assert(in_order(w4, 4));
    }
}

/// Reading what was written of a plain link whose relation is not empty
/// gives the link back, but for its length, which is not written.
pub proof fn lemma_plain_link_is_read_back(link: LinkView)
    requires
        plain(link),
        link.rel.len() > 0,
    ensures
        decode(encode(link)) == (LinkView { length: None, ..link }),
        canonical(encode(link)),
{
    lemma_reads_plain(link, blank());
}

/// The texts that reading and writing again leave as they are, are exactly
/// the canonical ones.
pub proof fn lemma_kept_iff_canonical(text: Seq<char>)
    ensures
        encode(decode(text)) == text <==> canonical(text),
{
    if canonical(text) {
        lemma_canonical_is_kept(text);
    }
    if encode(decode(text)) == text {
        let read = decode(text);
        lemma_decoded_is_plain(text);
        lemma_reads_plain(read, blank());
        if read.rel.len() == 0 {
            lemma_tag_texts();
            assert(decode(encode(read)).rel == default_rel());
            assert(false);
        }
    }
}

/// Writing a link, reading the text and writing what was read gives the first
/// text again, for every link whose relation is not empty and whose text is
/// canonical; by [`lemma_kept_iff_canonical`], for those links only.
pub proof fn lemma_encode_decode_encode(link: LinkView)
    requires
        link.rel.len() > 0,
        canonical(encode(link)),
    ensures
        encode(decode(encode(link))) == encode(link),
{
    lemma_canonical_is_kept(encode(link));
}

/// The text of a link that was read, unless its relation is empty, reads as
/// that link again.
pub proof fn lemma_decode_encode_decode(text: Seq<char>)
    requires
        decode(text).rel.len() > 0,
    ensures
        decode(encode(decode(text))) == decode(text),
{
    lemma_decoded_is_plain(text);
    lemma_plain_link_is_read_back(decode(text));
    lemma_decode_onto_length(text, blank());
}

/// Reading never sets the length.
pub proof fn lemma_decode_onto_length(text: Seq<char>, link: LinkView)
    ensures
        decode_onto(text, link).length == link.length,
    decreases text.len(),
{
    lemma_trailing_shape(text);
    if let Some(found) = trailing(text) {
        lemma_decode_onto_length(text.take(found.start), with_field(link, found.tag, found.value));
    }
}

} // verus!

//! The request to the backend: its fields, and how they go on the wire.

use vstd::prelude::*;
use vstd::string::{StringExecFns, StringSliceAdditionalSpecFns};
use vstd::utf8::encode_utf8;
use vstd::std_specs::btree::increasing_seq;
use vstd::std_specs::iter::IteratorSpec;
use std::collections::BTreeMap;
use bytes::{Bytes, BytesMut};
use crate::ascii::{
    ascii_digits, ascii_number, decimal_digits, format_ascii_digits, lemma_ascii_digits_round_trip,
    lemma_ascii_digits_shape, lemma_ascii_digits_truncates, pow10,
};
use crate::error::{Error, ErrorKind};
use crate::field::{
    all_fields, encode_field_to_buf, field_bytes, field_encodable, lemma_all_fields_after,
};
use crate::frame::{frame, frame_bytes, framed_body, lemma_frame_round_trip, MAX_BODY_LEN};
use crate::order::{lemma_increasing_ids, lemma_increasing_pairs};
use crate::tag::Tag;
use crate::wire::{bytes_mut_view, bytes_view, put_slice};

verus! {

/// Number of digits that the authorization serial number takes on the wire.
pub const SERNO_DIGITS: usize = 10;

/// Number of places in the order of fields: ten thousand regular tags, ten
/// thousand ISO fields, a million ISO subfields.
pub const PLACES: usize = 1_020_000;

/// A request to the backend.
#[derive(Debug)]
pub struct SigmaRequest {
    /// The store-and-forward flag.
    pub saf: String,
    /// The code of where the request comes from.
    pub source: String,
    /// The message type.
    pub mti: String,
    /// The authorization serial number.
    pub auth_serno: u64,
    /// The regular fields, by number.
    pub tags: BTreeMap<u16, String>,
    /// The ISO fields, by number.
    pub iso_fields: BTreeMap<u16, String>,
    /// The ISO subfields, by field and subfield number.
    pub iso_subfields: BTreeMap<(u16, u8), String>,
}

/// What a [`SigmaRequest`] holds.
pub struct RequestView {
    pub saf: Seq<char>,
    pub source: Seq<char>,
    pub mti: Seq<char>,
    pub auth_serno: u64,
    pub tags: Map<u16, Seq<char>>,
    pub iso_fields: Map<u16, Seq<char>>,
    pub iso_subfields: Map<(u16, u8), Seq<char>>,
}

impl View for SigmaRequest {
    type V = RequestView;

    open spec fn view(&self) -> RequestView {
        RequestView {
            saf: self.saf@,
            source: self.source@,
            mti: self.mti@,
            auth_serno: self.auth_serno,
            tags: self.tags@.map_values(|text: String| text@),
            iso_fields: self.iso_fields@.map_values(|text: String| text@),
            iso_subfields: self.iso_subfields@.map_values(|text: String| text@),
        }
    }
}

/// The place of a tag in the order of fields on the wire: regular tags
/// first, then ISO fields, then ISO subfields, each kind by its numbers.
pub open spec fn place_of(tag: Tag) -> nat {
    match tag {
        Tag::Regular(id) => id as nat,
        Tag::Iso(id) => (10_000 + id) as nat,
        Tag::IsoSubfield(id, sub) => (20_000 + id * 100 + sub) as nat,
    }
}

/// The tag at a place in the order of fields.
pub open spec fn tag_at(place: nat) -> Tag {
    if place < 10_000 {
        Tag::Regular(place as u16)
    } else if place < 20_000 {
        Tag::Iso((place - 10_000) as u16)
    } else {
        Tag::IsoSubfield(((place - 20_000) / 100) as u16, ((place - 20_000) % 100) as u8)
    }
}

/// The bytes of the fields at the places below `upto`, in order.
pub open spec fn fields_upto(fields: Map<Tag, Seq<char>>, upto: nat) -> Seq<u8>
    decreases upto,
{
    if upto == 0 {
        Seq::empty()
    } else {
        let tag = tag_at((upto - 1) as nat);
        fields_upto(fields, (upto - 1) as nat) + (if fields.contains_key(tag) {
            field_bytes(tag, encode_utf8(fields[tag]))
        } else {
            Seq::empty()
        })
    }
}

/// A body that starts with `head` and goes on with `fields` can be written:
/// every field can, and the whole is no longer than a frame holds.
pub open spec fn fits(head: Seq<u8>, fields: Map<Tag, Seq<char>>) -> bool {
    &&& forall|tag: Tag| #[trigger]
        fields.contains_key(tag) ==> field_encodable(tag, encode_utf8(fields[tag]))
    &&& head.len() + fields_upto(fields, PLACES as nat).len() <= MAX_BODY_LEN
}

impl RequestView {
    /// All the fields of the request, by tag.
    pub open spec fn fields(self) -> Map<Tag, Seq<char>> {
        Map::new(
            |tag: Tag|
                match tag {
                    Tag::Regular(id) => self.tags.contains_key(id),
                    Tag::Iso(id) => self.iso_fields.contains_key(id),
                    Tag::IsoSubfield(id, sub) => self.iso_subfields.contains_key((id, sub)),
                },
            |tag: Tag|
                match tag {
                    Tag::Regular(id) => self.tags[id],
                    Tag::Iso(id) => self.iso_fields[id],
                    Tag::IsoSubfield(id, sub) => self.iso_subfields[(id, sub)],
                },
        )
    }

    /// The start of the body: flag, source and message type as they are,
    /// then the serial number as ten digits.
    pub open spec fn head(self) -> Seq<u8> {
        encode_utf8(self.saf) + encode_utf8(self.source) + encode_utf8(self.mti) + ascii_digits(
            self.auth_serno as nat,
            SERNO_DIGITS as nat,
        )
    }

    /// The body of the message: the start, then every field in order.
    pub open spec fn body(self) -> Seq<u8> {
        self.head() + fields_upto(self.fields(), PLACES as nat)
    }

    /// The request can be written: every field can, and the body is no
    /// longer than a frame holds.
    pub open spec fn encodable(self) -> bool {
        fits(self.head(), self.fields())
    }

    /// The message on the wire.
    pub open spec fn wire(self) -> Seq<u8> {
        frame_bytes(self.body())
    }
}

/// A tag whose numbers fit a header has a place, and is the tag at its place.
pub proof fn lemma_place_of_tag(tag: Tag)
    requires
        tag.wf(),
    ensures
        place_of(tag) < PLACES,
        tag_at(place_of(tag)) == tag,
{
}

/// Every place holds a tag whose numbers fit a header, and is its place.
pub proof fn lemma_tag_at_place(place: nat)
    requires
        place < PLACES,
    ensures
        tag_at(place).wf(),
        place_of(tag_at(place)) == place,
{
}

/// Places without a field add nothing to the bytes.
pub proof fn lemma_fields_upto_gap(fields: Map<Tag, Seq<char>>, from: nat, upto: nat)
    requires
        from <= upto,
        forall|place: nat| from <= place < upto ==> !fields.contains_key(#[trigger] tag_at(place)),
    ensures
        fields_upto(fields, upto) == fields_upto(fields, from),
    decreases upto,
{
    if from < upto {
        lemma_fields_upto_gap(fields, from, (upto - 1) as nat);
        assert(!fields.contains_key(tag_at((upto - 1) as nat)));
    }
}

/// The bytes only grow with the places taken in.
pub proof fn lemma_fields_upto_grows(fields: Map<Tag, Seq<char>>, from: nat, upto: nat)
    requires
        from <= upto,
    ensures
        fields_upto(fields, from).len() <= fields_upto(fields, upto).len(),
    decreases upto,
{
    if from < upto {
        lemma_fields_upto_grows(fields, from, (upto - 1) as nat);
    }
}

/// The order of fields on the wire: regular tags before ISO fields before
/// ISO subfields, and within a kind by the numbers.
pub open spec fn precedes(a: Tag, b: Tag) -> bool {
    match a {
        Tag::Regular(x) => match b {
            Tag::Regular(y) => x < y,
            _ => true,
        },
        Tag::Iso(x) => match b {
            Tag::Regular(_) => false,
            Tag::Iso(y) => x < y,
            Tag::IsoSubfield(_, _) => true,
        },
        Tag::IsoSubfield(x, s) => match b {
            Tag::IsoSubfield(y, t) => x < y || (x == y && s < t),
            _ => false,
        },
    }
}

/// The first place of the kind of a tag.
pub open spec fn first_place(tag: Tag) -> nat {
    match tag {
        Tag::Regular(_) => 0,
        Tag::Iso(_) => 10_000,
        Tag::IsoSubfield(_, _) => 20_000,
    }
}

/// The place after the last of the kind of a tag.
pub open spec fn end_place(tag: Tag) -> nat {
    match tag {
        Tag::Regular(_) => 10_000,
        Tag::Iso(_) => 20_000,
        Tag::IsoSubfield(_, _) => PLACES as nat,
    }
}

/// Among tags whose numbers fit a header, the order of fields is the order
/// of places.
pub proof fn lemma_precedes_by_place(a: Tag, b: Tag)
    requires
        a.wf(),
        b.wf(),
    ensures
        precedes(a, b) <==> place_of(a) < place_of(b),
        first_place(a) <= place_of(a) < end_place(a),
{
}

/// Tags walked in order, all of one kind, that hold every field of that kind.
pub open spec fn walks_kind(fields: Map<Tag, Seq<char>>, walked: Seq<Tag>, kind: Tag) -> bool {
    &&& forall|i: int, j: int| 0 <= i < j < walked.len() ==> precedes(walked[i], walked[j])
    &&& forall|i: int|
        0 <= i < walked.len() ==> first_place(#[trigger] walked[i]) == first_place(kind)
    &&& forall|tag: Tag|
        #![trigger fields.contains_key(tag)]
        fields.contains_key(tag) && first_place(tag) == first_place(kind) ==> exists|j: int|
            0 <= j < walked.len() && walked[j] == tag
}

/// The place up to which the fields are written once `done` tags are walked.
pub open spec fn written_upto(walked: Seq<Tag>, kind: Tag, done: int) -> nat {
    if done <= 0 {
        first_place(kind)
    } else {
        place_of(walked[done - 1]) + 1
    }
}

/// Between the fields written so far and the next tag of the walk lies no
/// field: the bytes up to that tag are the bytes written.
pub proof fn lemma_fields_upto_next(
    fields: Map<Tag, Seq<char>>,
    walked: Seq<Tag>,
    kind: Tag,
    done: int,
)
    requires
        walks_kind(fields, walked, kind),
        0 <= done < walked.len(),
        forall|j: int| 0 <= j <= done ==> (#[trigger] walked[j]).wf(),
    ensures
        written_upto(walked, kind, done) <= place_of(walked[done]),
        fields_upto(fields, place_of(walked[done])) == fields_upto(
            fields,
            written_upto(walked, kind, done),
        ),
        fields_upto(fields, written_upto(walked, kind, done + 1)) == fields_upto(
            fields,
            written_upto(walked, kind, done),
        ) + (if fields.contains_key(walked[done]) {
            field_bytes(walked[done], encode_utf8(fields[walked[done]]))
        } else {
            Seq::empty()
        }),
{
    let next = walked[done];
    let lo = written_upto(walked, kind, done);
    assert(next.wf());
    lemma_precedes_by_place(next, next);
    if done > 0 {
        assert(walked[done - 1].wf());
        assert(precedes(walked[done - 1], next));
        lemma_precedes_by_place(walked[done - 1], next);
    }
    assert forall|place: nat| lo <= place < place_of(next) implies !fields.contains_key(
        #[trigger] tag_at(place),
    ) by {
        let tag = tag_at(place);
        lemma_tag_at_place(place);
        if fields.contains_key(tag) {
            assert(first_place(walked[done]) == first_place(kind));
            assert(first_place(tag) == first_place(kind));
            let j = choose|j: int| 0 <= j < walked.len() && walked[j] == tag;
            if j < done {
                assert(walked[j].wf());
                if j < done - 1 {
                    assert(precedes(walked[j], walked[done - 1]));
                    lemma_precedes_by_place(walked[j], walked[done - 1]);
                }
            } else if j > done {
                assert(precedes(next, walked[j]));
                lemma_precedes_by_place(next, tag);
            }
        }
    }
    lemma_fields_upto_gap(fields, lo, place_of(next));
    lemma_place_of_tag(next);
}

/// After the last tag of the walk lies no field of its kind: the bytes up
/// to the end of the kind are the bytes written.
pub proof fn lemma_fields_upto_end(fields: Map<Tag, Seq<char>>, walked: Seq<Tag>, kind: Tag)
    requires
        walks_kind(fields, walked, kind),
        forall|j: int| 0 <= j < walked.len() ==> (#[trigger] walked[j]).wf(),
    ensures
        written_upto(walked, kind, walked.len() as int) <= end_place(kind),
        fields_upto(fields, end_place(kind)) == fields_upto(
            fields,
            written_upto(walked, kind, walked.len() as int),
        ),
{
    let done = walked.len() as int;
    let lo = written_upto(walked, kind, done);
    if done > 0 {
        assert(walked[done - 1].wf());
        assert(first_place(walked[done - 1]) == first_place(kind));
        lemma_precedes_by_place(walked[done - 1], walked[done - 1]);
    }
    assert forall|place: nat| lo <= place < end_place(kind) implies !fields.contains_key(
        #[trigger] tag_at(place),
    ) by {
        let tag = tag_at(place);
        lemma_tag_at_place(place);
        if fields.contains_key(tag) {
            assert(first_place(tag) == first_place(kind));
            let j = choose|j: int| 0 <= j < walked.len() && walked[j] == tag;
            assert(walked[j].wf());
            if j < done - 1 {
                assert(precedes(walked[j], walked[done - 1]));
                lemma_precedes_by_place(walked[j], walked[done - 1]);
            }
        }
    }
    lemma_fields_upto_gap(fields, lo, end_place(kind));
}

/// The same fields give the same bytes: the message on the wire depends on
/// what the request holds, and on nothing else, such as the order in which
/// the fields came.
pub proof fn lemma_wire_deterministic(a: RequestView, b: RequestView)
    requires
        a.saf == b.saf,
        a.source == b.source,
        a.mti == b.mti,
        a.auth_serno == b.auth_serno,
        forall|id: u16| a.tags.contains_key(id) == b.tags.contains_key(id),
        forall|id: u16| a.tags.contains_key(id) ==> a.tags[id] == b.tags[id],
        forall|id: u16| a.iso_fields.contains_key(id) == b.iso_fields.contains_key(id),
        forall|id: u16| a.iso_fields.contains_key(id) ==> a.iso_fields[id] == b.iso_fields[id],
        forall|key: (u16, u8)| a.iso_subfields.contains_key(key) == b.iso_subfields.contains_key(key),
        forall|key: (u16, u8)|
            a.iso_subfields.contains_key(key) ==> a.iso_subfields[key] == b.iso_subfields[key],
    ensures
        a.wire() == b.wire(),
        a.encodable() == b.encodable(),
{
    assert(a.fields() =~= b.fields());
}

/// A serial number of more than ten digits goes on the wire as the first
/// ten digits of its decimal form: the digits that weigh least are dropped.
pub proof fn lemma_serial_truncated(req: RequestView)
    requires
        req.auth_serno > 9_999_999_999,
    ensures
        decimal_digits(req.auth_serno as nat).len() > SERNO_DIGITS,
        req.head() == encode_utf8(req.saf) + encode_utf8(req.source) + encode_utf8(req.mti)
            + decimal_digits(req.auth_serno as nat).take(SERNO_DIGITS as int),
{
    assert(pow10(10) == 10_000_000_000) by {
        reveal_with_fuel(pow10, 11);
    }
    lemma_ascii_digits_truncates(req.auth_serno as nat, SERNO_DIGITS as nat);
}

/// What is written can be read back. The frame of an encoded request gives
/// its body back, and the body starts with the flag, the source, the
/// message type and the ten digits of the serial number, each in its place
/// and as it was; a serial number of ten digits or fewer reads back as a
/// number. The flag and the source are taken to be one byte each and the
/// message type four, as the format has them.
pub proof fn lemma_request_round_trip(req: RequestView, rest: Seq<u8>)
    requires
        req.encodable(),
        encode_utf8(req.saf).len() == 1,
        encode_utf8(req.source).len() == 1,
        encode_utf8(req.mti).len() == 4,
    ensures
        framed_body(req.wire() + rest) == Ok::<Seq<u8>, ErrorKind>(req.body()),
        req.body().subrange(0, 1) == encode_utf8(req.saf),
        req.body().subrange(1, 2) == encode_utf8(req.source),
        req.body().subrange(2, 6) == encode_utf8(req.mti),
        req.body().subrange(6, 16) == ascii_digits(req.auth_serno as nat, SERNO_DIGITS as nat),
        req.auth_serno <= 9_999_999_999 ==> ascii_number(
            req.body().subrange(6, 16),
            u64::MAX as nat,
        ) == Some(req.auth_serno as nat),
{
    let body = req.body();
    lemma_frame_round_trip(body, rest);
    lemma_ascii_digits_shape(req.auth_serno as nat, SERNO_DIGITS as nat);
    assert(body.subrange(0, 1) =~= encode_utf8(req.saf));
    assert(body.subrange(1, 2) =~= encode_utf8(req.source));
    assert(body.subrange(2, 6) =~= encode_utf8(req.mti));
    assert(body.subrange(6, 16) =~= ascii_digits(req.auth_serno as nat, SERNO_DIGITS as nat));
    if req.auth_serno <= 9_999_999_999 {
        assert(pow10(10) == 10_000_000_000) by {
            reveal_with_fuel(pow10, 11);
        }
        lemma_ascii_digits_round_trip(
            req.auth_serno as nat,
            SERNO_DIGITS as nat,
            u64::MAX as nat,
        );
    }
}

/// The fields at the places below `upto`, as tags and values in order.
pub open spec fn fields_in_order(fields: Map<Tag, Seq<char>>, upto: nat) -> Seq<(Tag, Seq<u8>)>
    decreases upto,
{
    if upto == 0 {
        Seq::empty()
    } else {
        let tag = tag_at((upto - 1) as nat);
        fields_in_order(fields, (upto - 1) as nat) + (if fields.contains_key(tag) {
            seq![(tag, encode_utf8(fields[tag]))]
        } else {
            Seq::empty()
        })
    }
}

/// Written fields in front of other fields read back in front of them.
pub proof fn lemma_fields_upto_read_back(
    fields: Map<Tag, Seq<char>>,
    upto: nat,
    rest: Seq<u8>,
)
    requires
        forall|tag: Tag| #[trigger]
            fields.contains_key(tag) ==> field_encodable(tag, encode_utf8(fields[tag]))
                && tag.distinct_on_wire(),
        all_fields(rest) is Ok,
    ensures
        all_fields(fields_upto(fields, upto) + rest) == Ok::<Seq<(Tag, Seq<u8>)>, ErrorKind>(
            fields_in_order(fields, upto) + all_fields(rest)->Ok_0,
        ),
    decreases upto,
{
    if upto == 0 {
        assert(fields_upto(fields, upto) + rest =~= rest);
        assert(fields_in_order(fields, upto) + all_fields(rest)->Ok_0 =~= all_fields(rest)->Ok_0);
    } else {
        let tag = tag_at((upto - 1) as nat);
        let before = (upto - 1) as nat;
        if fields.contains_key(tag) {
            let value = encode_utf8(fields[tag]);
            let tail = field_bytes(tag, value) + rest;
            lemma_all_fields_after(tag, value, rest);
            lemma_fields_upto_read_back(fields, before, tail);
            assert(fields_upto(fields, upto) + rest =~= fields_upto(fields, before) + tail);
            assert(fields_in_order(fields, upto) + all_fields(rest)->Ok_0 =~= fields_in_order(
                fields,
                before,
            ) + all_fields(tail)->Ok_0);
        } else {
            lemma_fields_upto_read_back(fields, before, rest);
            assert(fields_upto(fields, upto) =~= fields_upto(fields, before));
            assert(fields_in_order(fields, upto) =~= fields_in_order(fields, before));
        }
    }
}

/// The fields of a written request read back, one after another, as the
/// request holds them and in the order of their places. This holds of every
/// request that can be written and has no subfield numbered zero, which a
/// header does not tell from its field.
pub proof fn lemma_request_fields_read_back(req: RequestView)
    requires
        req.encodable(),
        forall|tag: Tag| #[trigger] req.fields().contains_key(tag) ==> tag.distinct_on_wire(),
    ensures
        req.body().subrange(0, req.head().len() as int) == req.head(),
        all_fields(req.body().subrange(req.head().len() as int, req.body().len() as int)) == Ok::<
            Seq<(Tag, Seq<u8>)>,
            ErrorKind,
        >(fields_in_order(req.fields(), PLACES as nat)),
{
    let fields = req.fields();
    let written = fields_upto(fields, PLACES as nat);
    lemma_fields_upto_read_back(fields, PLACES as nat, Seq::empty());
    assert(written + Seq::<u8>::empty() =~= written);
    assert(fields_in_order(fields, PLACES as nat) + Seq::<(Tag, Seq<u8>)>::empty()
        =~= fields_in_order(fields, PLACES as nat));
    assert(req.body().subrange(0, req.head().len() as int) =~= req.head());
    assert(req.body().subrange(req.head().len() as int, req.body().len() as int) =~= written);
}

/// The regular tag or the ISO field with a number.
pub open spec fn simple_tag(iso: bool, id: u16) -> Tag {
    if iso {
        Tag::Iso(id)
    } else {
        Tag::Regular(id)
    }
}

/// The walk of a map keyed by field number finds the keys in order and
/// finds them all.
proof fn lemma_walk_ids(
    map: &BTreeMap<u16, String>,
    entries: Seq<(&u16, &String)>,
    iso: bool,
    fields: Map<Tag, Seq<char>>,
)
    requires
        entries == map.iter().remaining(),
        increasing_seq(entries.map_values(|kv: (&u16, &String)| *kv.0)),
        forall|id: u16| map@.contains_key(id) == fields.contains_key(simple_tag(iso, id)),
    ensures
        walks_kind(
            fields,
            entries.map_values(|kv: (&u16, &String)| simple_tag(iso, *kv.0)),
            simple_tag(iso, 0),
        ),
        forall|j: int|
            0 <= j < entries.len() ==> map@.contains_key(*(#[trigger] entries[j]).0)
                && map@[*entries[j].0] == *entries[j].1,
{
    let keys = entries.map_values(|kv: (&u16, &String)| *kv.0);
    let walked = entries.map_values(|kv: (&u16, &String)| simple_tag(iso, *kv.0));
    lemma_increasing_ids(keys);
    assert forall|i: int, j: int| 0 <= i < j < walked.len() implies precedes(
        walked[i],
        walked[j],
    ) by {
        assert(keys[i] < keys[j]);
    }
    assert forall|tag: Tag|
        #![trigger fields.contains_key(tag)]
        fields.contains_key(tag) && first_place(tag) == first_place(
            simple_tag(iso, 0),
        ) implies exists|j: int| 0 <= j < walked.len() && walked[j] == tag by {
        let id = match tag {
            Tag::Regular(id) => id,
            Tag::Iso(id) => id,
            Tag::IsoSubfield(id, _) => id,
        };
        assert(tag == simple_tag(iso, id));
        assert(map@.contains_key(id));
        assert(entries.contains((&id, &map@[id])));
        let j = choose|j: int| 0 <= j < entries.len() && entries[j] == (&id, &map@[id]);
        assert(walked[j] == tag);
    }
}

/// The walk of a map keyed by field and subfield number finds the keys in
/// order and finds them all.
proof fn lemma_walk_pairs(
    map: &BTreeMap<(u16, u8), String>,
    entries: Seq<(&(u16, u8), &String)>,
    fields: Map<Tag, Seq<char>>,
)
    requires
        entries == map.iter().remaining(),
        increasing_seq(entries.map_values(|kv: (&(u16, u8), &String)| *kv.0)),
        forall|id: u16, sub: u8|
            map@.contains_key((id, sub)) == fields.contains_key(Tag::IsoSubfield(id, sub)),
    ensures
        walks_kind(
            fields,
            entries.map_values(|kv: (&(u16, u8), &String)| Tag::IsoSubfield(kv.0.0, kv.0.1)),
            Tag::IsoSubfield(0, 0),
        ),
        forall|j: int|
            0 <= j < entries.len() ==> map@.contains_key(*(#[trigger] entries[j]).0)
                && map@[*entries[j].0] == *entries[j].1,
{
    let keys = entries.map_values(|kv: (&(u16, u8), &String)| *kv.0);
    let walked = entries.map_values(|kv: (&(u16, u8), &String)| Tag::IsoSubfield(kv.0.0, kv.0.1));
    lemma_increasing_pairs(keys);
    assert forall|i: int, j: int| 0 <= i < j < walked.len() implies precedes(
        walked[i],
        walked[j],
    ) by {
        assert(keys[i].0 < keys[j].0 || (keys[i].0 == keys[j].0 && keys[i].1 < keys[j].1));
    }
    assert forall|tag: Tag|
        #![trigger fields.contains_key(tag)]
        fields.contains_key(tag) && first_place(tag) == first_place(
            Tag::IsoSubfield(0, 0),
        ) implies exists|j: int| 0 <= j < walked.len() && walked[j] == tag by {
        let key = match tag {
            Tag::IsoSubfield(id, sub) => (id, sub),
            _ => (0u16, 0u8),
        };
        assert(tag == Tag::IsoSubfield(key.0, key.1));
        assert(map@.contains_key(key));
        assert(entries.contains((&key, &map@[key])));
        let j = choose|j: int| 0 <= j < entries.len() && entries[j] == (&key, &map@[key]);
        assert(walked[j] == tag);
    }
}

/// Appends one field to a body that is written up to the place of its tag,
/// and refuses where the field or the body grown by it cannot be written.
fn encode_next_field(
    tag: Tag,
    value: &String,
    buf: &mut BytesMut,
    Ghost(head): Ghost<Seq<u8>>,
    Ghost(fields): Ghost<Map<Tag, Seq<char>>>,
) -> (r: Result<(), Error>)
    requires
        fields.contains_key(tag),
        fields[tag] == value@,
        tag.wf() ==> bytes_mut_view(*old(buf)) == head + fields_upto(fields, place_of(tag)),
        bytes_mut_view(*old(buf)).len() <= MAX_BODY_LEN + SERNO_DIGITS,
    ensures
        r is Ok ==> field_encodable(tag, encode_utf8(value@)) && bytes_mut_view(*final(buf))
            == head + fields_upto(fields, place_of(tag) + 1) && bytes_mut_view(*final(buf)).len()
            <= MAX_BODY_LEN,
        r is Err ==> !fits(head, fields) && r->Err_0.kind() == ErrorKind::Bounds,
{
    match encode_field_to_buf(tag, value.as_str(), buf) {
        Err(e) => {
            return Err(e);
        },
        Ok(()) => {},
    }
    proof {
        lemma_place_of_tag(tag);
        assert(bytes_mut_view(*buf) =~= head + fields_upto(fields, place_of(tag) + 1));
    }
    let len = buf.len();
    if len > MAX_BODY_LEN {
        proof {
            lemma_fields_upto_grows(fields, place_of(tag) + 1, PLACES as nat);
        }
        return Err(Error::out_of_bounds("message too long: ", MAX_BODY_LEN, len));
    }
    Ok(())
}

/// Appends the fields of a map keyed by field number, in order.
fn encode_simple_fields(
    map: &BTreeMap<u16, String>,
    iso: bool,
    buf: &mut BytesMut,
    Ghost(head): Ghost<Seq<u8>>,
    Ghost(fields): Ghost<Map<Tag, Seq<char>>>,
) -> (r: Result<(), Error>)
    requires
        forall|id: u16| map@.contains_key(id) == fields.contains_key(simple_tag(iso, id)),
        forall|id: u16| map@.contains_key(id) ==> fields[simple_tag(iso, id)] == map@[id]@,
        bytes_mut_view(*old(buf)) == head + fields_upto(fields, first_place(simple_tag(iso, 0))),
        bytes_mut_view(*old(buf)).len() <= MAX_BODY_LEN + SERNO_DIGITS,
    ensures
        r is Ok ==> bytes_mut_view(*final(buf)) == head + fields_upto(
            fields,
            end_place(simple_tag(iso, 0)),
        ) && bytes_mut_view(*final(buf)).len() <= MAX_BODY_LEN + SERNO_DIGITS && forall|id: u16|
            #[trigger] map@.contains_key(id) ==> field_encodable(
                simple_tag(iso, id),
                encode_utf8(map@[id]@),
            ),
        r is Err ==> !fits(head, fields) && r->Err_0.kind() == ErrorKind::Bounds,
{
    let ghost kind = simple_tag(iso, 0);
    for kv in it: map.iter()
        invariant
            increasing_seq(it.seq().map_values(|kv: (&u16, &String)| *kv.0)),
            it.seq() == map.iter().remaining(),
            kind == simple_tag(iso, 0),
            forall|id: u16| map@.contains_key(id) == fields.contains_key(simple_tag(iso, id)),
            forall|id: u16| map@.contains_key(id) ==> fields[simple_tag(iso, id)] == map@[id]@,
            forall|j: int|
                0 <= j < it.index() ==> field_encodable(
                    simple_tag(iso, *(#[trigger] it.seq()[j]).0),
                    encode_utf8(it.seq()[j].1@),
                ),
            bytes_mut_view(*buf) == head + fields_upto(
                fields,
                written_upto(
                    it.seq().map_values(|kv: (&u16, &String)| simple_tag(iso, *kv.0)),
                    kind,
                    it.index(),
                ),
            ),
            bytes_mut_view(*buf).len() <= MAX_BODY_LEN + SERNO_DIGITS,
    {
        let (id, value) = kv;
        let tag = if iso {
            Tag::Iso(*id)
        } else {
            Tag::Regular(*id)
        };
        proof {
            let walked = it.seq().map_values(|kv: (&u16, &String)| simple_tag(iso, *kv.0));
            let done = it.index();
            lemma_walk_ids(map, it.seq(), iso, fields);
            assert(walked[done] == tag);
            assert forall|j: int| 0 <= j < done implies (#[trigger] walked[j]).wf() by {
                assert(field_encodable(simple_tag(iso, *it.seq()[j].0), encode_utf8(it.seq()[j].1@)));
            }
            if tag.wf() {
                lemma_fields_upto_next(fields, walked, kind, done);
            }
        }
        match encode_next_field(tag, value, buf, Ghost(head), Ghost(fields)) {
            Err(e) => {
                return Err(e);
            },
            Ok(()) => {},
        }
    }
    proof {
        let entries = map.iter().remaining();
        let walked = entries.map_values(|kv: (&u16, &String)| simple_tag(iso, *kv.0));
        lemma_walk_ids(map, entries, iso, fields);
        assert forall|j: int| 0 <= j < walked.len() implies (#[trigger] walked[j]).wf() by {
            assert(field_encodable(simple_tag(iso, *entries[j].0), encode_utf8(entries[j].1@)));
        }
        lemma_fields_upto_end(fields, walked, kind);
        assert forall|id: u16| #[trigger] map@.contains_key(id) implies field_encodable(
            simple_tag(iso, id),
            encode_utf8(map@[id]@),
        ) by {
            assert(entries.contains((&id, &map@[id])));
            let j = choose|j: int| 0 <= j < entries.len() && entries[j] == (&id, &map@[id]);
            assert(field_encodable(simple_tag(iso, *entries[j].0), encode_utf8(entries[j].1@)));
        }
    }
    Ok(())
}

/// Appends the fields of a map keyed by field and subfield number, in order.
fn encode_subfields(
    map: &BTreeMap<(u16, u8), String>,
    buf: &mut BytesMut,
    Ghost(head): Ghost<Seq<u8>>,
    Ghost(fields): Ghost<Map<Tag, Seq<char>>>,
) -> (r: Result<(), Error>)
    requires
        forall|id: u16, sub: u8|
            map@.contains_key((id, sub)) == fields.contains_key(Tag::IsoSubfield(id, sub)),
        forall|id: u16, sub: u8|
            map@.contains_key((id, sub)) ==> fields[Tag::IsoSubfield(id, sub)] == map@[(id, sub)]@,
        bytes_mut_view(*old(buf)) == head + fields_upto(
            fields,
            first_place(Tag::IsoSubfield(0, 0)),
        ),
        bytes_mut_view(*old(buf)).len() <= MAX_BODY_LEN + SERNO_DIGITS,
    ensures
        r is Ok ==> bytes_mut_view(*final(buf)) == head + fields_upto(fields, PLACES as nat)
            && bytes_mut_view(*final(buf)).len() <= MAX_BODY_LEN + SERNO_DIGITS && forall|
            id: u16,
            sub: u8,
        |
            #[trigger] map@.contains_key((id, sub)) ==> field_encodable(
                Tag::IsoSubfield(id, sub),
                encode_utf8(map@[(id, sub)]@),
            ),
        r is Err ==> !fits(head, fields) && r->Err_0.kind() == ErrorKind::Bounds,
{
    let ghost kind = Tag::IsoSubfield(0, 0);
    for kv in it: map.iter()
        invariant
            increasing_seq(it.seq().map_values(|kv: (&(u16, u8), &String)| *kv.0)),
            it.seq() == map.iter().remaining(),
            kind == Tag::IsoSubfield(0, 0),
            forall|id: u16, sub: u8|
                map@.contains_key((id, sub)) == fields.contains_key(Tag::IsoSubfield(id, sub)),
            forall|id: u16, sub: u8|
                map@.contains_key((id, sub)) ==> fields[Tag::IsoSubfield(id, sub)] == map@[(
                    id,
                    sub,
                )]@,
            forall|j: int|
                0 <= j < it.index() ==> field_encodable(
                    Tag::IsoSubfield((#[trigger] it.seq()[j]).0.0, it.seq()[j].0.1),
                    encode_utf8(it.seq()[j].1@),
                ),
            bytes_mut_view(*buf) == head + fields_upto(
                fields,
                written_upto(
                    it.seq().map_values(
                        |kv: (&(u16, u8), &String)| Tag::IsoSubfield(kv.0.0, kv.0.1),
                    ),
                    kind,
                    it.index(),
                ),
            ),
            bytes_mut_view(*buf).len() <= MAX_BODY_LEN + SERNO_DIGITS,
    {
        let (key, value) = kv;
        let tag = Tag::IsoSubfield(key.0, key.1);
        proof {
            let walked = it.seq().map_values(
                |kv: (&(u16, u8), &String)| Tag::IsoSubfield(kv.0.0, kv.0.1),
            );
            let done = it.index();
            lemma_walk_pairs(map, it.seq(), fields);
            assert(walked[done] == tag);
            assert forall|j: int| 0 <= j < done implies (#[trigger] walked[j]).wf() by {
                assert(field_encodable(
                    Tag::IsoSubfield(it.seq()[j].0.0, it.seq()[j].0.1),
                    encode_utf8(it.seq()[j].1@),
                ));
            }
            if tag.wf() {
                lemma_fields_upto_next(fields, walked, kind, done);
            }
        }
        match encode_next_field(tag, value, buf, Ghost(head), Ghost(fields)) {
            Err(e) => {
                return Err(e);
            },
            Ok(()) => {},
        }
    }
    proof {
        let entries = map.iter().remaining();
        let walked = entries.map_values(
            |kv: (&(u16, u8), &String)| Tag::IsoSubfield(kv.0.0, kv.0.1),
        );
        lemma_walk_pairs(map, entries, fields);
        assert forall|j: int| 0 <= j < walked.len() implies (#[trigger] walked[j]).wf() by {
            assert(field_encodable(
                Tag::IsoSubfield(entries[j].0.0, entries[j].0.1),
                encode_utf8(entries[j].1@),
            ));
        }
        lemma_fields_upto_end(fields, walked, kind);
        assert forall|id: u16, sub: u8| #[trigger] map@.contains_key((id, sub)) implies
            field_encodable(Tag::IsoSubfield(id, sub), encode_utf8(map@[(id, sub)]@)) by {
            let key = (id, sub);
            assert(entries.contains((&key, &map@[key])));
            let j = choose|j: int| 0 <= j < entries.len() && entries[j] == (&key, &map@[key]);
            assert(field_encodable(
                Tag::IsoSubfield(entries[j].0.0, entries[j].0.1),
                encode_utf8(entries[j].1@),
            ));
        }
    }
    Ok(())
}

/// Appends a piece of text to a body, and refuses where the body grown by
/// it would be longer than a frame holds.
fn put_text(buf: &mut BytesMut, text: &str) -> (r: Result<(), Error>)
    requires
        bytes_mut_view(*old(buf)).len() <= MAX_BODY_LEN,
    ensures
        r is Ok ==> bytes_mut_view(*final(buf)) == bytes_mut_view(*old(buf)) + text.spec_bytes()
            && bytes_mut_view(*final(buf)).len() <= MAX_BODY_LEN,
        r is Err ==> bytes_mut_view(*old(buf)).len() + text.spec_bytes().len() > MAX_BODY_LEN
            && r->Err_0.kind() == ErrorKind::Bounds,
{
    let bytes = text.as_bytes();
    let room = MAX_BODY_LEN - buf.len();
    if bytes.len() > room {
        return Err(Error::out_of_bounds("message too long: ", room, bytes.len()));
    }
    put_slice(buf, bytes);
    Ok(())
}

impl SigmaRequest {
    /// A request without fields.
    pub fn new(saf: &str, source: &str, mti: &str, auth_serno: u64) -> (r: Self)
        ensures
            r@ == (RequestView {
                saf: saf@,
                source: source@,
                mti: mti@,
                auth_serno,
                tags: Map::empty(),
                iso_fields: Map::empty(),
                iso_subfields: Map::empty(),
            }),
    {
        let r = SigmaRequest {
            saf: String::from_str(saf),
            source: String::from_str(source),
            mti: String::from_str(mti),
            auth_serno,
            tags: BTreeMap::new(),
            iso_fields: BTreeMap::new(),
            iso_subfields: BTreeMap::new(),
        };
        proof {
            assert(r@.tags =~= Map::empty());
            assert(r@.iso_fields =~= Map::empty());
            assert(r@.iso_subfields =~= Map::empty());
        }
        r
    }

    /// Writes the request as a message for the wire: the flag, the source
    /// and the message type as they are, the serial number as ten digits,
    /// the fields in order, and the length of all that in front. A request
    /// that the format cannot hold is refused.
    pub fn encode(&self) -> (r: Result<Bytes, Error>)
        ensures
            self@.encodable() ==> r is Ok && bytes_view(r->Ok_0) == self@.wire(),
            !self@.encodable() ==> r is Err && r->Err_0.kind() == ErrorKind::Bounds,
    {
        let ghost fields = self@.fields();
        let ghost head = self@.head();
        let mut buf = BytesMut::with_capacity(8192);
        proof {
            lemma_fields_upto_grows(fields, 0, PLACES as nat);
            lemma_ascii_digits_shape(self.auth_serno as nat, SERNO_DIGITS as nat);
        }
        put_text(&mut buf, self.saf.as_str())?;
        put_text(&mut buf, self.source.as_str())?;
        put_text(&mut buf, self.mti.as_str())?;
        let serno = format_ascii_digits(self.auth_serno, SERNO_DIGITS);
        put_slice(&mut buf, serno.as_slice());
        proof {
            assert(bytes_mut_view(buf) =~= head + fields_upto(fields, 0));
            assert(fits(head, fields) == self@.encodable());
        }
        encode_simple_fields(&self.tags, false, &mut buf, Ghost(head), Ghost(fields))?;
        encode_simple_fields(&self.iso_fields, true, &mut buf, Ghost(head), Ghost(fields))?;
        encode_subfields(&self.iso_subfields, &mut buf, Ghost(head), Ghost(fields))?;
        proof {
            assert(bytes_mut_view(buf) == self@.body());
            assert forall|tag: Tag| #[trigger] fields.contains_key(tag) implies field_encodable(
                tag,
                encode_utf8(fields[tag]),
            ) by {
                match tag {
                    Tag::Regular(id) => {
                        assert(self.tags@.contains_key(id));
                        assert(tag == simple_tag(false, id));
                    },
                    Tag::Iso(id) => {
                        assert(self.iso_fields@.contains_key(id));
                        assert(tag == simple_tag(true, id));
                    },
                    Tag::IsoSubfield(id, sub) => {
                        assert(self.iso_subfields@.contains_key((id, sub)));
                    },
                }
            }
        }
        frame(buf)
    }
}

} // verus!

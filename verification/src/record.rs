//! Records in JSON, read field by field: a field that is not asked for is passed
//! over, whatever it holds, and one that is asked for stands once at most.
use crate::api::sse::utf8_text;
use crate::json::{
    field_views, json_option, json_views, lemma_json_parts, parsed, Json, JsonView,
};
use crate::text::same_text;
use vstd::prelude::*;
use vstd::slice::slice_subrange;
use vstd::utf8::{decode_utf8, valid_utf8};

verus! {

/// What is asked for of a value.
#[derive(Debug)]
pub enum Shape {
    /// All of it.
    Whole,
    /// These fields, by their names or in their order.
    Record(Vec<(&'static str, Shape)>),
    /// The items, each of which has a shape.
    List(Box<Shape>),
}

/// What a [`Shape`] stands for.
pub enum ShapeView {
    Whole,
    Record(Seq<(Seq<char>, ShapeView)>),
    List(Box<ShapeView>),
}

impl ShapeView {
    /// No fields.
    pub open spec fn record() -> ShapeView {
        ShapeView::Record(Seq::empty())
    }

    /// One more field.
    pub open spec fn with(self, name: Seq<char>, shape: ShapeView) -> ShapeView {
        match self {
            ShapeView::Record(fields) => ShapeView::Record(fields.push((name, shape))),
            _ => self,
        }
    }

    /// One more field, all of which is asked for.
    pub open spec fn with_whole(self, name: Seq<char>) -> ShapeView {
        self.with(name, ShapeView::Whole)
    }

    /// Items of a shape.
    pub open spec fn list(self) -> ShapeView {
        ShapeView::List(Box::new(self))
    }

    /// What is asked for of the item `at`.
    pub open spec fn item(self, at: nat) -> ShapeView {
        match self {
            ShapeView::List(item) => *item,
            ShapeView::Record(fields) if at < fields.len() => fields[at as int].1,
            _ => ShapeView::Whole,
        }
    }

    /// What is asked for of a field, from the field `from` on.
    pub open spec fn field(self, name: Seq<char>, from: nat) -> Option<ShapeView>
        decreases (if self is Record { self->Record_0.len() } else { 0 }) - from,
    {
        match self {
            ShapeView::Record(fields) if from < fields.len() => if fields[from as int].0 == name {
                Some(fields[from as int].1)
            } else {
                self.field(name, from + 1)
            },
            _ => None,
        }
    }
}

impl Shape {
    /// What the shape stands for.
    pub open spec fn model(self) -> ShapeView
        decreases self,
    {
        match self {
            Shape::Whole => ShapeView::Whole,
            Shape::Record(fields) => ShapeView::Record(
                Seq::new(
                    fields@.len(),
                    |i: int|
                        if 0 <= i < fields@.len() {
                            (fields@[i].0@, fields@[i].1.model())
                        } else {
                            (Seq::empty(), ShapeView::Whole)
                        },
                ),
            ),
            Shape::List(item) => ShapeView::List(Box::new(item.model())),
        }
    }
}

impl View for Shape {
    type V = ShapeView;

    open spec fn view(&self) -> ShapeView {
        self.model()
    }
}

impl Shape {
    /// No fields.
    pub fn record() -> (shape: Shape)
        ensures
            shape@ == ShapeView::record(),
    {
        let shape = Shape::Record(Vec::new());
        assert(shape@->Record_0 =~= Seq::empty());
        shape
    }

    /// One more field.
    pub fn with(self, name: &'static str, shape: Shape) -> (more: Shape)
        ensures
            more@ == self@.with(name@, shape@),
    {
        match self {
            Shape::Record(fields) => {
                let ghost before = Shape::Record(fields)@->Record_0;
                let mut fields = fields;
                fields.push((name, shape));
                let more = Shape::Record(fields);
                assert(more@->Record_0 =~= before.push((name@, shape@)));
                more
            },
            other => other,
        }
    }

    /// One more field, all of which is asked for.
    pub fn with_whole(self, name: &'static str) -> (more: Shape)
        ensures
            more@ == self@.with_whole(name@),
    {
        self.with(name, Shape::Whole)
    }

    /// Items of a shape.
    pub fn list(self) -> (list: Shape)
        ensures
            list@ == self@.list(),
    {
        Shape::List(Box::new(self))
    }

    fn item(&self, at: usize) -> (shape: &Shape)
        ensures
            shape@ == self@.item(at as nat),
    {
        match self {
            Shape::List(item) => item,
            Shape::Record(fields) => {
                if at < fields.len() {
                    &fields[at].1
                } else {
                    &Shape::Whole
                }
            },
            Shape::Whole => &Shape::Whole,
        }
    }

    fn field(&self, name: &str) -> (shape: Option<&Shape>)
        ensures
            match shape {
                Some(shape) => self@.field(name@, 0) == Some(shape@),
                None => self@.field(name@, 0) is None,
            },
    {
        let fields = match self {
            Shape::Record(fields) => fields,
            _ => {
                return None;
            },
        };
        let ghost all = self@->Record_0;
        let mut i: usize = 0;
        while i < fields.len()
            invariant
                i <= fields.len(),
                all.len() == fields.len(),
                self@ == ShapeView::Record(all),
                forall|j: int|
                    0 <= j < all.len() ==> #[trigger] all[j] == (fields@[j].0@, fields@[j].1@),
                self@.field(name@, 0) == self@.field(name@, i as nat),
            decreases fields.len() - i,
        {
            assert(all[i as int] == (fields@[i as int].0@, fields@[i as int].1@));
            if same_text(fields[i].0, name) {
                return Some(&fields[i].1);
            }
            i += 1;
        }
        None
    }
}

/// Where the first JSON value in some bytes ends; none where none does.
pub uninterp spec fn value_end(bytes: Seq<u8>) -> Option<nat>;

/// `serde_json::StreamDeserializer::next` for a `serde::de::IgnoredAny`, and the
/// `byte_offset` after it. Believed: where the value ends depends on the bytes alone.
/// What is passed over is held to the grammar of JSON; its numbers may be as large,
/// its containers as deep and its text as odd as they like.
#[verifier::external_body]
fn skip_value(bytes: &[u8]) -> (end: Option<usize>)
    ensures
        match end {
            Some(end) => value_end(bytes@) == Some(end as nat),
            None => value_end(bytes@) is None,
        },
{
    let reader = serde_json::Deserializer::from_slice(bytes);
    let mut values = reader.into_iter::<serde::de::IgnoredAny>();
    match values.next() {
        Some(Ok(_)) => Some(values.byte_offset()),
        _ => None,
    }
}

/// Where the first JSON value in some bytes ends, which is within them and after
/// their start.
pub open spec fn first_value(bytes: Seq<u8>) -> Option<nat> {
    match value_end(bytes) {
        Some(end) => if 0 < end <= bytes.len() {
            Some(end)
        } else {
            None
        },
        None => None,
    }
}

fn find_value(bytes: &[u8]) -> (end: Option<usize>)
    ensures
        match end {
            Some(end) => first_value(bytes@) == Some(end as nat) && 0 < end <= bytes@.len(),
            None => first_value(bytes@) is None,
        },
{
    match skip_value(bytes) {
        Some(end) => {
            if 0 < end && end <= bytes.len() {
                Some(end)
            } else {
                None
            }
        },
        None => None,
    }
}

/// Whether a byte may stand around a JSON value.
pub open spec fn space(byte: u8) -> bool {
    byte == 9 || byte == 10 || byte == 13 || byte == 32
}

/// Whether a byte stands between the parts of a container: a space, a comma or a
/// colon.
pub open spec fn separator(byte: u8) -> bool {
    space(byte) || byte == 44 || byte == 58
}

/// What follows the separators at the start.
pub open spec fn trimmed(bytes: Seq<u8>) -> Seq<u8>
    decreases bytes.len(),
{
    if bytes.len() > 0 && separator(bytes[0]) {
        trimmed(bytes.skip(1))
    } else {
        bytes
    }
}

proof fn lemma_trimmed(bytes: Seq<u8>)
    ensures
        trimmed(bytes).len() <= bytes.len(),
    decreases bytes.len(),
{
    if bytes.len() > 0 && separator(bytes[0]) {
        lemma_trimmed(bytes.skip(1));
    }
}

fn trim(bytes: &[u8]) -> (rest: &[u8])
    ensures
        rest@ == trimmed(bytes@),
{
    let mut rest = bytes;
    while rest.len() > 0 && (rest[0] == 9 || rest[0] == 10 || rest[0] == 13 || rest[0] == 32
        || rest[0] == 44 || rest[0] == 58)
        invariant
            trimmed(rest@) == trimmed(bytes@),
        decreases rest@.len(),
    {
        let ghost before = rest@;
        rest = slice_subrange(rest, 1, rest.len());
        assert(rest@ =~= before.skip(1));
    }
    rest
}

/// The value in so many lists of one item.
pub open spec fn unwrapped(value: Option<JsonView>, depth: nat) -> Option<JsonView>
    decreases depth,
{
    if depth == 0 {
        value
    } else {
        match value {
            Some(JsonView::Array(items)) if items.len() == 1 => unwrapped(
                Some(items[0]),
                (depth - 1) as nat,
            ),
            _ => None,
        }
    }
}

/// A character so many times.
pub open spec fn repeated(c: char, count: nat) -> Seq<char> {
    Seq::new(count, |i: int| c)
}

/// All of a value that stands in so many containers, which count for how deep it may
/// nest itself.
pub open spec fn whole(bytes: Seq<u8>, depth: nat) -> Option<JsonView> {
    if valid_utf8(bytes) {
        unwrapped(
            parsed(repeated('[', depth) + decode_utf8(bytes) + repeated(']', depth)),
            depth,
        )
    } else {
        None
    }
}

fn read_whole(bytes: &[u8], depth: usize) -> (value: Option<Json>)
    ensures
        json_option(value) == whole(bytes@, depth as nat),
{
    let inner = match utf8_text(bytes) {
        Some(inner) => inner,
        None => {
            return None;
        },
    };
    let mut text = String::new();
    let mut i: usize = 0;
    assert(text@ =~= repeated('[', 0));
    while i < depth
        invariant
            i <= depth,
            text@ == repeated('[', i as nat),
        decreases depth - i,
    {
        text.push('[');
        assert(text@ =~= repeated('[', (i + 1) as nat));
        i += 1;
    }
    text.push_str(inner.as_str());
    let ghost opened = text@;
    i = 0;
    assert(text@ =~= opened + repeated(']', 0));
    while i < depth
        invariant
            i <= depth,
            text@ == opened + repeated(']', i as nat),
        decreases depth - i,
    {
        text.push(']');
        assert(text@ =~= opened + repeated(']', (i + 1) as nat));
        i += 1;
    }
    let ghost all = parsed(text@);
    let mut value = Json::parse(text.as_str());
    assert(text@ =~= repeated('[', depth as nat) + inner@ + repeated(']', depth as nat));
    i = depth;
    while i > 0
        invariant
            i <= depth,
            unwrapped(json_option(value), i as nat) == unwrapped(all, depth as nat),
            whole(bytes@, depth as nat) == unwrapped(all, depth as nat),
        decreases i,
    {
        value = match value {
            Some(Json::Array(items)) => {
                proof {
                    lemma_json_parts(Json::Array(items));
                }
                let mut items = items;
                if items.len() == 1 {
                    items.pop()
                } else {
                    return None;
                }
            },
            Some(other) => {
                proof {
                    lemma_json_parts(other);
                }
                return None;
            },
            None => {
                return None;
            },
        };
        i -= 1;
    }
    value
}

/// What is asked for of a value that stands in so many containers; none where a part
/// of it cannot be read, or a field that is asked for stands twice.
pub open spec fn pruned(bytes: Seq<u8>, shape: ShapeView, depth: nat) -> Option<JsonView>
    decreases bytes.len(), 0nat,
    via pruned_decreases
{
    let text = trimmed(bytes);
    if shape is Whole || text.len() == 0 {
        whole(bytes, depth)
    } else if text[0] == 91 {
        match items(text.skip(1), shape, depth + 1, Seq::empty()) {
            Some(items) => Some(JsonView::Array(items)),
            None => None,
        }
    } else if text[0] == 123 && shape is Record {
        match fields(text.skip(1), shape, depth + 1, Seq::empty()) {
            Some(fields) => Some(JsonView::Object(fields)),
            None => None,
        }
    } else {
        whole(bytes, depth)
    }
}

#[via_fn]
proof fn pruned_decreases(bytes: Seq<u8>, shape: ShapeView, depth: nat) {
    lemma_trimmed(bytes);
}

/// The items of a list from some bytes on, after those that are known.
pub open spec fn items(
    bytes: Seq<u8>,
    shape: ShapeView,
    depth: nat,
    known: Seq<JsonView>,
) -> Option<Seq<JsonView>>
    decreases bytes.len(), 1nat,
    via items_decreases
{
    let text = trimmed(bytes);
    if text.len() == 0 || text[0] == 93 {
        Some(known)
    } else {
        match first_value(text) {
            None => None,
            Some(end) => match pruned(text.take(end as int), shape.item(known.len()), depth) {
                None => None,
                Some(value) => items(text.skip(end as int), shape, depth, known.push(value)),
            },
        }
    }
}

#[via_fn]
proof fn items_decreases(bytes: Seq<u8>, shape: ShapeView, depth: nat, known: Seq<JsonView>) {
    lemma_trimmed(bytes);
}

/// Whether one of the fields has a name.
pub open spec fn has_field(known: Seq<(Seq<char>, JsonView)>, name: Seq<char>) -> bool {
    exists|i: int| 0 <= i < known.len() && (#[trigger] known[i]).0 == name
}

/// The fields of an object that are asked for from some bytes on, after those that
/// are known.
pub open spec fn fields(
    bytes: Seq<u8>,
    shape: ShapeView,
    depth: nat,
    known: Seq<(Seq<char>, JsonView)>,
) -> Option<Seq<(Seq<char>, JsonView)>>
    decreases bytes.len(), 1nat,
    via fields_decreases
{
    let text = trimmed(bytes);
    if text.len() == 0 || text[0] == 125 {
        Some(known)
    } else {
        match first_value(text) {
            None => None,
            Some(end) => {
                let after = trimmed(text.skip(end as int));
                match (whole(text.take(end as int), 0), first_value(after)) {
                    (Some(JsonView::Text(name)), Some(more)) => {
                        let rest = after.skip(more as int);
                        match shape.field(name, 0) {
                            None => fields(rest, shape, depth, known),
                            Some(inner) => if has_field(known, name) {
                                None
                            } else {
                                match pruned(after.take(more as int), inner, depth) {
                                    None => None,
                                    Some(value) => fields(
                                        rest,
                                        shape,
                                        depth,
                                        known.push((name, value)),
                                    ),
                                }
                            },
                        }
                    },
                    _ => None,
                }
            },
        }
    }
}

#[via_fn]
proof fn fields_decreases(
    bytes: Seq<u8>,
    shape: ShapeView,
    depth: nat,
    known: Seq<(Seq<char>, JsonView)>,
) {
    let text = trimmed(bytes);
    lemma_trimmed(bytes);
    match first_value(text) {
        Some(end) => {
            lemma_trimmed(text.skip(end as int));
        },
        None => {},
    }
}

fn prune(bytes: &[u8], shape: &Shape, depth: usize) -> (value: Option<Json>)
    requires
        depth + bytes@.len() <= usize::MAX,
    ensures
        json_option(value) == pruned(bytes@, shape@, depth as nat),
    decreases bytes@.len(), 0nat,
{
    let text = trim(bytes);
    proof {
        lemma_trimmed(bytes@);
    }
    if matches!(shape, Shape::Whole) || text.len() == 0 {
        return read_whole(bytes, depth);
    }
    let inner = slice_subrange(text, 1, text.len());
    assert(inner@ =~= text@.skip(1));
    if text[0] == 91 {
        match read_items(inner, shape, depth + 1) {
            Some(items) => {
                let value = Json::Array(items);
                proof {
                    lemma_json_parts(value);
                }
                Some(value)
            },
            None => None,
        }
    } else if text[0] == 123 && matches!(shape, Shape::Record(_)) {
        match read_fields(inner, shape, depth + 1) {
            Some(fields) => {
                let value = Json::Object(fields);
                proof {
                    lemma_json_parts(value);
                }
                Some(value)
            },
            None => None,
        }
    } else {
        read_whole(bytes, depth)
    }
}

fn read_items(bytes: &[u8], shape: &Shape, depth: usize) -> (list: Option<Vec<Json>>)
    requires
        depth + bytes@.len() <= usize::MAX,
    ensures
        match list {
            Some(list) => items(bytes@, shape@, depth as nat, Seq::empty()) == Some(
                json_views(list@),
            ),
            None => items(bytes@, shape@, depth as nat, Seq::empty()) is None,
        },
    decreases bytes@.len(), 1nat,
{
    let mut list: Vec<Json> = Vec::new();
    let mut rest = bytes;
    let ghost all = items(bytes@, shape@, depth as nat, Seq::empty());
    assert(json_views(list@) =~= Seq::empty());
    loop
        invariant
            rest@.len() <= bytes@.len(),
            depth + bytes@.len() <= usize::MAX,
            all == items(rest@, shape@, depth as nat, json_views(list@)),
            all == items(bytes@, shape@, depth as nat, Seq::empty()),
        decreases rest@.len(),
    {
        let text = trim(rest);
        proof {
            lemma_trimmed(rest@);
        }
        if text.len() == 0 || text[0] == 93 {
            return Some(list);
        }
        let end = match find_value(text) {
            Some(end) => end,
            None => {
                return None;
            },
        };
        let part = slice_subrange(text, 0, end);
        assert(part@ =~= text@.take(end as int));
        match prune(part, shape.item(list.len()), depth) {
            Some(value) => {
                let ghost before = json_views(list@);
                list.push(value);
                assert(json_views(list@) =~= before.push(value@));
            },
            None => {
                return None;
            },
        }
        let next = slice_subrange(text, end, text.len());
        assert(next@ =~= text@.skip(end as int));
        rest = next;
    }
}

fn holds_field(known: &Vec<(String, Json)>, name: &str) -> (result: bool)
    ensures
        result == has_field(field_views(known@), name@),
{
    let ghost all = field_views(known@);
    let mut i: usize = 0;
    while i < known.len()
        invariant
            i <= known.len(),
            all == field_views(known@),
            forall|j: int| 0 <= j < i ==> (#[trigger] all[j]).0 != name@,
        decreases known.len() - i,
    {
        assert(all[i as int].0 == known@[i as int].0@);
        if same_text(known[i].0.as_str(), name) {
            return true;
        }
        i += 1;
    }
    false
}

fn read_fields(bytes: &[u8], shape: &Shape, depth: usize) -> (list: Option<Vec<(String, Json)>>)
    requires
        depth + bytes@.len() <= usize::MAX,
    ensures
        match list {
            Some(list) => fields(bytes@, shape@, depth as nat, Seq::empty()) == Some(
                field_views(list@),
            ),
            None => fields(bytes@, shape@, depth as nat, Seq::empty()) is None,
        },
    decreases bytes@.len(), 1nat,
{
    let mut list: Vec<(String, Json)> = Vec::new();
    let mut rest = bytes;
    let ghost all = fields(bytes@, shape@, depth as nat, Seq::empty());
    assert(field_views(list@) =~= Seq::empty());
    loop
        invariant
            rest@.len() <= bytes@.len(),
            depth + bytes@.len() <= usize::MAX,
            all == fields(rest@, shape@, depth as nat, field_views(list@)),
            all == fields(bytes@, shape@, depth as nat, Seq::empty()),
        decreases rest@.len(),
    {
        let text = trim(rest);
        proof {
            lemma_trimmed(rest@);
        }
        if text.len() == 0 || text[0] == 125 {
            return Some(list);
        }
        let end = match find_value(text) {
            Some(end) => end,
            None => {
                return None;
            },
        };
        let key = slice_subrange(text, 0, end);
        assert(key@ =~= text@.take(end as int));
        let tail = slice_subrange(text, end, text.len());
        assert(tail@ =~= text@.skip(end as int));
        let after = trim(tail);
        proof {
            lemma_trimmed(tail@);
        }
        let name = match read_whole(key, 0) {
            Some(Json::Text(name)) => name,
            _ => {
                return None;
            },
        };
        let more = match find_value(after) {
            Some(more) => more,
            None => {
                return None;
            },
        };
        let next = slice_subrange(after, more, after.len());
        assert(next@ =~= after@.skip(more as int));
        match shape.field(name.as_str()) {
            None => {},
            Some(inner) => {
                if holds_field(&list, name.as_str()) {
                    return None;
                }
                let part = slice_subrange(after, 0, more);
                assert(part@ =~= after@.take(more as int));
                match prune(part, inner, depth) {
                    Some(value) => {
                        let ghost before = field_views(list@);
                        let ghost added = (name@, value@);
                        list.push((name, value));
                        assert(field_views(list@) =~= before.push(added));
                    },
                    None => {
                        return None;
                    },
                }
            },
        }
        rest = next;
    }
}

/// What is asked for of the one value that some bytes hold; none where they hold
/// none, or more, or where what is asked for cannot be read.
pub open spec fn record(bytes: Seq<u8>, shape: ShapeView) -> Option<JsonView> {
    match first_value(bytes) {
        Some(end) => if forall|i: int| end <= i < bytes.len() ==> space(#[trigger] bytes[i]) {
            pruned(bytes.take(end as int), shape, 0)
        } else {
            None
        },
        None => None,
    }
}

/// Reads what is asked for of the one value that some bytes hold.
pub fn read_record(bytes: &[u8], shape: &Shape) -> (value: Option<Json>)
    ensures
        json_option(value) == record(bytes@, shape@),
{
    let end = match find_value(bytes) {
        Some(end) => end,
        None => {
            return None;
        },
    };
    let mut i: usize = end;
    while i < bytes.len()
        invariant
            end <= i <= bytes@.len(),
            first_value(bytes@) == Some(end as nat),
            forall|j: int| end <= j < i ==> space(#[trigger] bytes@[j]),
        decreases bytes@.len() - i,
    {
        let byte = bytes[i];
        if !(byte == 9 || byte == 10 || byte == 13 || byte == 32) {
            assert(!space(bytes@[i as int]));
            return None;
        }
        i += 1;
    }
    let part = slice_subrange(bytes, 0, end);
    assert(part@ =~= bytes@.take(end as int));
    prune(part, shape, 0)
}

} // verus!

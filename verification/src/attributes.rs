//! Product attributes: how they are made from the fields of the product form,
//! and how a list of them is stored as one JSON value.

use slug::slugify;
use vstd::prelude::*;
use crate::json::{
    Json, find_member, is_first_member, json_document, json_text, lemma_member, member,
    parse_json, render_json,
};
use crate::text::{opt_view, read_pieces, split_options, split_pieces, views};

verus! {

/// One attribute of a product, such as its colours or its sizes.
#[derive(Debug)]
pub struct ProductAttribute {
    pub name: String,
    pub slug: String,
    /// The place of the attribute among the attributes of the product.
    pub position: u8,
    pub visible: bool,
    pub variation: bool,
    pub taxonomy: bool,
    /// The values that the attribute can take.
    pub options: Vec<String>,
}

/// An attribute over plain values: the mathematical form of
/// `ProductAttribute`.
pub struct AttributeView {
    pub name: Seq<char>,
    pub slug: Seq<char>,
    pub position: int,
    pub visible: bool,
    pub variation: bool,
    pub taxonomy: bool,
    pub options: Seq<Seq<char>>,
}

impl View for ProductAttribute {
    type V = AttributeView;

    open spec fn view(&self) -> AttributeView {
        AttributeView {
            name: self.name@,
            slug: self.slug@,
            position: self.position as int,
            visible: self.visible,
            variation: self.variation,
            taxonomy: self.taxonomy,
            options: views(self.options@),
        }
    }
}

/// The views of a sequence of attributes.
pub open spec fn attribute_views(attributes: Seq<ProductAttribute>) -> Seq<AttributeView> {
    Seq::new(attributes.len(), |i: int| attributes[i]@)
}

/// The slug that `slugify` of the crate slug makes of `text`: lower-case
/// letters, digits and single hyphens that stand for the words of `text`.
pub uninterp spec fn slug_text(text: Seq<char>) -> Seq<char>;

/// Calls `slugify` of the crate slug. The slug depends on `text` alone.
#[verifier::external_body]
pub(crate) fn slug_of(text: &str) -> (slug: String)
    ensures
        slug@ == slug_text(text@),
{
    slugify(text)
}

/// The options of the attributes as the product form sends them: one text for
/// a form with one attribute, a list of texts for a form with several.
pub enum AttributeValues {
    One(String),
    Many(Vec<String>),
}

/// The lists of options that the form stands for. Each text is split at every
/// `,` and every `|`. The options of a single text lose the whitespace at
/// their ends; those of a list of texts are kept as they are.
pub fn from_attributes_values(input: &AttributeValues) -> (r: Vec<Vec<String>>)
    ensures
        match input {
            AttributeValues::One(text) => {
                &&& r@.len() == 1
                &&& views(r@[0]@) == read_pieces(split_pieces(text@), true)
            },
            AttributeValues::Many(texts) => {
                &&& r@.len() == texts@.len()
                &&& forall|i: int|
                    0 <= i < texts@.len() ==> views((#[trigger] r@[i])@) == read_pieces(
                        split_pieces(texts@[i]@),
                        false,
                    )
            },
        },
{
    let mut out: Vec<Vec<String>> = Vec::new();
    match input {
        AttributeValues::One(text) => {
            out.push(split_options(text.as_str(), true));
        },
        AttributeValues::Many(texts) => {
            let mut i: usize = 0;
            while i < texts.len()
                invariant
                    i <= texts.len(),
                    out@.len() == i,
                    forall|j: int|
                        0 <= j < i ==> views((#[trigger] out@[j])@) == read_pieces(
                            split_pieces(texts@[j]@),
                            false,
                        ),
                decreases texts.len() - i,
            {
                out.push(split_options(texts[i].as_str(), false));
                i += 1;
            }
        },
    }
    out
}

/// The most attributes that a product can have: the positions are bytes.
pub const MAX_ATTRIBUTES: usize = 256;

/// The attribute that the form field number `position` stands for: it is
/// visible, no variation and no taxonomy, and its slug is made of its name.
pub open spec fn form_attribute(
    name: Seq<char>,
    position: int,
    options: Seq<Seq<char>>,
) -> AttributeView {
    AttributeView {
        name,
        slug: slug_text(name),
        position,
        visible: true,
        variation: false,
        taxonomy: false,
        options,
    }
}

/// Whether the names and the lists of options of a form make a list of
/// attributes: there is at least one name, no more than 256, and each name has
/// its list of options.
pub open spec fn well_formed_form(names: Seq<String>, values: Seq<Vec<String>>) -> bool {
    0 < names.len() == values.len() <= MAX_ATTRIBUTES
}

/// What is wrong with the attribute fields of a form.
#[derive(Clone, Copy, Debug, PartialEq, Eq, Structural)]
pub enum AttributeFormError {
    /// There are not as many lists of options as there are names.
    CountMismatch,
    /// There are more than 256 attributes.
    TooMany,
}

impl AttributeFormError {
    /// The message shown to the editor of the product.
    pub fn message(&self) -> (text: &'static str)
        ensures
            text@ == match self {
                AttributeFormError::CountMismatch => "Every attribute needs a name and a value"@,
                AttributeFormError::TooMany => "A product can have 256 attributes at most"@,
            },
    {
        match self {
            AttributeFormError::CountMismatch => "Every attribute needs a name and a value",
            AttributeFormError::TooMany => "A product can have 256 attributes at most",
        }
    }
}

/// What is wrong with the attribute fields of a form, if anything is. A form
/// without attributes is in order.
pub open spec fn form_error(names: Seq<String>, values: Seq<Vec<String>>) -> Option<
    AttributeFormError,
> {
    if names.len() != values.len() {
        Some(AttributeFormError::CountMismatch)
    } else if names.len() > MAX_ATTRIBUTES {
        Some(AttributeFormError::TooMany)
    } else {
        None
    }
}

/// Says what is wrong with the attribute fields of a form, if anything is. A
/// form passes exactly when it is well formed or has no attributes.
pub fn attribute_form_error(names: &Vec<String>, values: &Vec<Vec<String>>) -> (r: Option<
    AttributeFormError,
>)
    ensures
        r == form_error(names@, values@),
        r is None <==> well_formed_form(names@, values@) || (names@.len() == 0 && values@.len()
            == 0),
{
    if names.len() != values.len() {
        Some(AttributeFormError::CountMismatch)
    } else if names.len() > MAX_ATTRIBUTES {
        Some(AttributeFormError::TooMany)
    } else {
        None
    }
}

/// The attributes that the names and the lists of options of a form stand for,
/// in the order of the form; `None` for a form that is not well formed.
pub fn attributes_from_form(names: &Vec<String>, values: &Vec<Vec<String>>) -> (r: Option<
    Vec<ProductAttribute>,
>)
    ensures
        r is Some <==> well_formed_form(names@, values@),
        r is Some ==> {
            &&& r->0@.len() == names@.len()
            &&& forall|i: int|
                0 <= i < names@.len() ==> (#[trigger] r->0@[i])@ == form_attribute(
                    names@[i]@,
                    i,
                    views(values@[i]@),
                )
        },
{
    let n = names.len();
    if n == 0 || n != values.len() || n > MAX_ATTRIBUTES {
        return None;
    }
    let mut out: Vec<ProductAttribute> = Vec::new();
    let mut i: usize = 0;
    while i < n
        invariant
            i <= n,
            n == names.len(),
            n == values.len(),
            n <= MAX_ATTRIBUTES,
            out@.len() == i,
            forall|j: int|
                0 <= j < i ==> (#[trigger] out@[j])@ == form_attribute(
                    names@[j]@,
                    j,
                    views(values@[j]@),
                ),
        decreases n - i,
    {
        let options = copy_texts(&values[i]);
        let attribute = ProductAttribute {
            name: names[i].clone(),
            slug: slug_of(names[i].as_str()),
            position: i as u8,
            visible: true,
            variation: false,
            taxonomy: false,
            options,
        };
        out.push(attribute);
        i += 1;
    }
    Some(out)
}

/// A copy of a list of texts.
pub fn copy_texts(texts: &Vec<String>) -> (r: Vec<String>)
    ensures
        views(r@) == views(texts@),
{
    let mut out: Vec<String> = Vec::new();
    let mut i: usize = 0;
    while i < texts.len()
        invariant
            i <= texts.len(),
            out@.len() == i,
            forall|j: int| 0 <= j < i ==> (#[trigger] out@[j])@ == texts@[j]@,
        decreases texts.len() - i,
    {
        out.push(texts[i].clone());
        i += 1;
    }
    assert(views(out@) =~= views(texts@));
    out
}

/// Whether `json` is the JSON string `text`.
pub open spec fn is_str(json: Json, text: Seq<char>) -> bool {
    json matches Json::Str(t) && t@ == text
}

/// Whether `json` is the array of the JSON strings `texts`.
pub open spec fn is_str_array(json: Json, texts: Seq<Seq<char>>) -> bool {
    json matches Json::Array(items) && items@.len() == texts.len() && forall|k: int|
        0 <= k < texts.len() ==> is_str(#[trigger] items@[k], texts[k])
}

/// Whether `json` is the object under which `attribute` is stored: its
/// members are, in this order, `name`, `slug`, `position`, `is_visible`,
/// `is_variation`, `is_taxonomy` and `value`, the last the array of the
/// options.
pub open spec fn encodes_attribute(json: Json, attribute: AttributeView) -> bool {
    json matches Json::Object(members) && {
        let m = members@;
        &&& m.len() == 7
        &&& m[0].0@ == "name"@ && is_str(m[0].1, attribute.name)
        &&& m[1].0@ == "slug"@ && is_str(m[1].1, attribute.slug)
        &&& m[2].0@ == "position"@ && m[2].1 == Json::Int(attribute.position as i64)
        &&& m[3].0@ == "is_visible"@ && m[3].1 == Json::Bool(attribute.visible)
        &&& m[4].0@ == "is_variation"@ && m[4].1 == Json::Bool(attribute.variation)
        &&& m[5].0@ == "is_taxonomy"@ && m[5].1 == Json::Bool(attribute.taxonomy)
        &&& m[6].0@ == "value"@ && is_str_array(m[6].1, attribute.options)
    }
}

/// Whether `json` is the array under which `attributes` are stored.
pub open spec fn encodes_attributes(json: Json, attributes: Seq<AttributeView>) -> bool {
    json matches Json::Array(items) && items@.len() == attributes.len() && forall|k: int|
        0 <= k < attributes.len() ==> encodes_attribute(#[trigger] items@[k], attributes[k])
}

/// The text of a JSON string; `None` for any other document.
pub open spec fn str_of(json: Json) -> Option<Seq<char>> {
    match json {
        Json::Str(t) => Some(t@),
        _ => None,
    }
}

/// The texts of an array of JSON strings; `None` for any other document.
pub open spec fn strs_of(json: Json) -> Option<Seq<Seq<char>>> {
    match json {
        Json::Array(items) => if forall|k: int|
            0 <= k < items@.len() ==> str_of(#[trigger] items@[k]) is Some {
            Some(Seq::new(items@.len(), |k: int| str_of(items@[k])->0))
        } else {
            None
        },
        _ => None,
    }
}

/// The member `name` where it is a JSON string.
pub open spec fn text_member(members: Seq<(String, Json)>, name: Seq<char>) -> Option<Seq<char>> {
    match member(members, name) {
        Some(json) => str_of(json),
        None => None,
    }
}

/// The member `name` where it is `true` or `false`.
pub open spec fn flag_member(members: Seq<(String, Json)>, name: Seq<char>) -> Option<bool> {
    match member(members, name) {
        Some(Json::Bool(b)) => Some(b),
        _ => None,
    }
}

/// The member `name` where it is an integer from 0 to 255.
pub open spec fn byte_member(members: Seq<(String, Json)>, name: Seq<char>) -> Option<int> {
    match member(members, name) {
        Some(Json::Int(i)) => if 0 <= i <= 255 {
            Some(i as int)
        } else {
            None
        },
        _ => None,
    }
}

/// The member `name` where it is an array of JSON strings.
pub open spec fn texts_member(members: Seq<(String, Json)>, name: Seq<char>) -> Option<
    Seq<Seq<char>>,
> {
    match member(members, name) {
        Some(json) => strs_of(json),
        None => None,
    }
}

/// The attribute that `json` stands for. It must be an object whose members
/// `name` and `slug` are strings, whose `position` is an integer from 0 to
/// 255, whose `is_visible` and `is_variation` are booleans and whose `value`
/// is an array of strings. `is_taxonomy` counts where it is a boolean, and is
/// `false` otherwise. Other members are passed over.
pub open spec fn decoded_attribute(json: Json) -> Option<AttributeView> {
    match json {
        Json::Object(members) => {
            let m = members@;
            if text_member(m, "name"@) is Some && text_member(m, "slug"@) is Some && byte_member(
                m,
                "position"@,
            ) is Some && flag_member(m, "is_visible"@) is Some && flag_member(m, "is_variation"@)
                is Some && texts_member(m, "value"@) is Some {
                Some(
                    AttributeView {
                        name: text_member(m, "name"@)->0,
                        slug: text_member(m, "slug"@)->0,
                        position: byte_member(m, "position"@)->0,
                        visible: flag_member(m, "is_visible"@)->0,
                        variation: flag_member(m, "is_variation"@)->0,
                        taxonomy: flag_member(m, "is_taxonomy"@) == Some(true),
                        options: texts_member(m, "value"@)->0,
                    },
                )
            } else {
                None
            }
        },
        _ => None,
    }
}

/// The attributes that `json` stands for: it must be an array, each of whose
/// items stands for an attribute.
pub open spec fn decoded_attributes(json: Json) -> Option<Seq<AttributeView>> {
    match json {
        Json::Array(items) => if forall|k: int|
            0 <= k < items@.len() ==> decoded_attribute(#[trigger] items@[k]) is Some {
            Some(Seq::new(items@.len(), |k: int| decoded_attribute(items@[k])->0))
        } else {
            None
        },
        _ => None,
    }
}

/// The array of JSON strings of `texts`.
fn texts_json(texts: &Vec<String>) -> (json: Json)
    ensures
        is_str_array(json, views(texts@)),
{
    let mut items: Vec<Json> = Vec::new();
    let mut i: usize = 0;
    while i < texts.len()
        invariant
            i <= texts.len(),
            items@.len() == i,
            forall|k: int| 0 <= k < i ==> is_str(#[trigger] items@[k], texts@[k]@),
        decreases texts.len() - i,
    {
        items.push(Json::Str(texts[i].clone()));
        i += 1;
    }
    Json::Array(items)
}

/// The object under which `attribute` is stored.
pub fn attribute_json(attribute: &ProductAttribute) -> (json: Json)
    ensures
        encodes_attribute(json, attribute@),
{
    let mut members: Vec<(String, Json)> = Vec::new();
    members.push(("name".to_string(), Json::Str(attribute.name.clone())));
    members.push(("slug".to_string(), Json::Str(attribute.slug.clone())));
    members.push(("position".to_string(), Json::Int(attribute.position as i64)));
    members.push(("is_visible".to_string(), Json::Bool(attribute.visible)));
    members.push(("is_variation".to_string(), Json::Bool(attribute.variation)));
    members.push(("is_taxonomy".to_string(), Json::Bool(attribute.taxonomy)));
    members.push(("value".to_string(), texts_json(&attribute.options)));
    Json::Object(members)
}

/// The array under which `attributes` are stored.
pub fn attributes_json(attributes: &Vec<ProductAttribute>) -> (json: Json)
    ensures
        encodes_attributes(json, attribute_views(attributes@)),
{
    let mut items: Vec<Json> = Vec::new();
    let mut i: usize = 0;
    while i < attributes.len()
        invariant
            i <= attributes.len(),
            items@.len() == i,
            forall|k: int| 0 <= k < i ==> encodes_attribute(#[trigger] items@[k], attributes@[k]@),
        decreases attributes.len() - i,
    {
        items.push(attribute_json(&attributes[i]));
        i += 1;
    }
    Json::Array(items)
}

fn read_text(json: &Json) -> (r: Option<String>)
    ensures
        opt_view(r) == str_of(*json),
{
    match json {
        Json::Str(t) => Some(t.clone()),
        _ => None,
    }
}

fn read_texts(json: &Json) -> (r: Option<Vec<String>>)
    ensures
        r is Some <==> strs_of(*json) is Some,
        r is Some ==> views(r->0@) == strs_of(*json)->0,
{
    match json {
        Json::Array(items) => {
            let mut out: Vec<String> = Vec::new();
            let mut i: usize = 0;
            while i < items.len()
                invariant
                    i <= items.len(),
                    out@.len() == i,
                    *json == Json::Array(*items),
                    forall|k: int| 0 <= k < i ==> str_of(#[trigger] items@[k]) == Some(out@[k]@),
                decreases items.len() - i,
            {
                match read_text(&items[i]) {
                    Some(t) => {
                        out.push(t);
                    },
                    None => {
                        assert(str_of(items@[i as int]) is None);
                        return None;
                    },
                }
                i += 1;
            }
            assert(views(out@) =~= strs_of(*json)->0);
            Some(out)
        },
        _ => None,
    }
}

fn read_text_member(members: &Vec<(String, Json)>, name: &str) -> (r: Option<String>)
    ensures
        opt_view(r) == text_member(members@, name@),
{
    match find_member(members, name) {
        Some(json) => read_text(json),
        None => None,
    }
}

fn read_flag_member(members: &Vec<(String, Json)>, name: &str) -> (r: Option<bool>)
    ensures
        r == flag_member(members@, name@),
{
    match find_member(members, name) {
        Some(Json::Bool(b)) => Some(*b),
        _ => None,
    }
}

fn read_byte_member(members: &Vec<(String, Json)>, name: &str) -> (r: Option<u8>)
    ensures
        r is Some <==> byte_member(members@, name@) is Some,
        r is Some ==> r->0 as int == byte_member(members@, name@)->0,
{
    match find_member(members, name) {
        Some(Json::Int(i)) => {
            if 0 <= *i && *i <= 255 {
                Some(*i as u8)
            } else {
                None
            }
        },
        _ => None,
    }
}

fn read_texts_member(members: &Vec<(String, Json)>, name: &str) -> (r: Option<Vec<String>>)
    ensures
        r is Some <==> texts_member(members@, name@) is Some,
        r is Some ==> views(r->0@) == texts_member(members@, name@)->0,
{
    match find_member(members, name) {
        Some(json) => read_texts(json),
        None => None,
    }
}

/// Reads the attribute that `json` stands for.
pub fn attribute_from_json(json: &Json) -> (r: Option<ProductAttribute>)
    ensures
        r is Some <==> decoded_attribute(*json) is Some,
        r is Some ==> r->0@ == decoded_attribute(*json)->0,
{
    let members = match json {
        Json::Object(members) => members,
        _ => {
            return None;
        },
    };
    let name = match read_text_member(members, "name") {
        Some(v) => v,
        None => {
            return None;
        },
    };
    let slug = match read_text_member(members, "slug") {
        Some(v) => v,
        None => {
            return None;
        },
    };
    let position = match read_byte_member(members, "position") {
        Some(v) => v,
        None => {
            return None;
        },
    };
    let visible = match read_flag_member(members, "is_visible") {
        Some(v) => v,
        None => {
            return None;
        },
    };
    let variation = match read_flag_member(members, "is_variation") {
        Some(v) => v,
        None => {
            return None;
        },
    };
    let options = match read_texts_member(members, "value") {
        Some(v) => v,
        None => {
            return None;
        },
    };
    let taxonomy = match read_flag_member(members, "is_taxonomy") {
        Some(v) => v,
        None => false,
    };
    Some(ProductAttribute { name, slug, position, visible, variation, taxonomy, options })
}

/// Reads the attributes that `json` stands for.
pub fn attributes_from_json(json: &Json) -> (r: Option<Vec<ProductAttribute>>)
    ensures
        r is Some <==> decoded_attributes(*json) is Some,
        r is Some ==> attribute_views(r->0@) == decoded_attributes(*json)->0,
{
    match json {
        Json::Array(items) => {
            let mut out: Vec<ProductAttribute> = Vec::new();
            let mut i: usize = 0;
            while i < items.len()
                invariant
                    i <= items.len(),
                    out@.len() == i,
                    *json == Json::Array(*items),
                    forall|k: int|
                        0 <= k < i ==> decoded_attribute(#[trigger] items@[k]) == Some(out@[k]@),
                decreases items.len() - i,
            {
                match attribute_from_json(&items[i]) {
                    Some(a) => {
                        out.push(a);
                    },
                    None => {
                        assert(decoded_attribute(items@[i as int]) is None);
                        return None;
                    },
                }
                i += 1;
            }
            assert(attribute_views(out@) =~= decoded_attributes(*json)->0);
            Some(out)
        },
        _ => None,
    }
}

proof fn lemma_member_names()
    ensures
        "name"@.len() == 4,
        "slug"@.len() == 4,
        "name"@[0] == 'n',
        "slug"@[0] == 's',
        "position"@.len() == 8,
        "is_visible"@.len() == 10,
        "is_variation"@.len() == 12,
        "is_taxonomy"@.len() == 11,
        "value"@.len() == 5,
{
    reveal_strlit("name");
    reveal_strlit("slug");
    reveal_strlit("position");
    reveal_strlit("is_visible");
    reveal_strlit("is_variation");
    reveal_strlit("is_taxonomy");
    reveal_strlit("value");
}

/// Reading the object under which an attribute is stored gives the attribute
/// back.
pub proof fn lemma_attribute_round_trip(json: Json, attribute: AttributeView)
    requires
        encodes_attribute(json, attribute),
        0 <= attribute.position <= 255,
    ensures
        decoded_attribute(json) == Some(attribute),
{
    lemma_member_names();
    let m = json->Object_0@;
    assert(is_first_member(m, 0, "name"@));
    assert(is_first_member(m, 1, "slug"@));
    assert(is_first_member(m, 2, "position"@));
    assert(is_first_member(m, 3, "is_visible"@));
    assert(is_first_member(m, 4, "is_variation"@));
    assert(is_first_member(m, 5, "is_taxonomy"@));
    assert(is_first_member(m, 6, "value"@));
    lemma_member(m, 0, "name"@);
    lemma_member(m, 1, "slug"@);
    lemma_member(m, 2, "position"@);
    lemma_member(m, 3, "is_visible"@);
    lemma_member(m, 4, "is_variation"@);
    lemma_member(m, 5, "is_taxonomy"@);
    lemma_member(m, 6, "value"@);
    let items = m[6].1->Array_0@;
    assert forall|k: int| 0 <= k < items.len() implies str_of(#[trigger] items[k]) == Some(
        attribute.options[k],
    ) by {
        assert(is_str(items[k], attribute.options[k]));
    }
    assert(strs_of(m[6].1)->0 =~= attribute.options);
    assert(decoded_attribute(json)->0.options == attribute.options);
}

/// Reading the array under which a list of attributes is stored gives the
/// list back.
pub proof fn lemma_attributes_round_trip(json: Json, attributes: Seq<AttributeView>)
    requires
        encodes_attributes(json, attributes),
        forall|k: int|
            0 <= k < attributes.len() ==> 0 <= (#[trigger] attributes[k]).position <= 255,
    ensures
        decoded_attributes(json) == Some(attributes),
{
    let items = json->Array_0@;
    assert forall|k: int| 0 <= k < items.len() implies decoded_attribute(#[trigger] items[k])
        == Some(attributes[k]) by {
        lemma_attribute_round_trip(items[k], attributes[k]);
    }
    assert(decoded_attributes(json)->0 =~= attributes);
}

/// The attributes that the stored text `text` stands for: those of the JSON
/// document that it is; none where it is no JSON document, or one that does
/// not stand for a list of attributes.
pub open spec fn stored_attributes(text: Seq<char>) -> Seq<AttributeView> {
    match json_document(text) {
        Some(json) => match decoded_attributes(json) {
            Some(attributes) => attributes,
            None => Seq::<AttributeView>::empty(),
        },
        None => Seq::<AttributeView>::empty(),
    }
}

/// The text under which `attributes` are stored: the JSON text of the array
/// that stands for them.
pub fn serialize_attributes(attributes: &Vec<ProductAttribute>) -> (text: String)
    ensures
        exists|json: Json| #[trigger]
            encodes_attributes(json, attribute_views(attributes@)) && text@ == json_text(json),
{
    let json = attributes_json(attributes);
    render_json(&json)
}

/// The attributes that the stored text `text` stands for; none where the text
/// cannot be read.
pub fn parse_attributes(text: &str) -> (attributes: Vec<ProductAttribute>)
    ensures
        attribute_views(attributes@) == stored_attributes(text@),
{
    let found = match parse_json(text) {
        Some(json) => attributes_from_json(&json),
        None => None,
    };
    match found {
        Some(attributes) => attributes,
        None => {
            let none: Vec<ProductAttribute> = Vec::new();
            assert(attribute_views(none@) =~= Seq::<AttributeView>::empty());
            none
        },
    }
}

} // verus!

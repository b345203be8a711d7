//! A JSON value as plain data. Objects keep their members in the order in
//! which they were added.

use crate::text::{own, same, texts};
use vstd::prelude::*;

verus! {

/// A JSON value.
#[derive(Debug)]
pub enum Json {
    Null,
    Bool(bool),
    Number(u64),
    /// A number with a fraction, by its decimal form.
    Decimal(String),
    Text(String),
    List(Vec<Json>),
    Object(Vec<(String, Json)>),
}

/// What a JSON value says.
pub enum JsonView {
    Null,
    Bool(bool),
    Number(nat),
    Decimal(Seq<char>),
    Text(Seq<char>),
    List(Seq<JsonView>),
    Object(Seq<(Seq<char>, JsonView)>),
}

impl Json {
    /// What the value says.
    pub open spec fn view(&self) -> JsonView
        decreases self,
    {
        match self {
            Json::Null => JsonView::Null,
            Json::Bool(b) => JsonView::Bool(*b),
            Json::Number(n) => JsonView::Number(*n as nat),
            Json::Decimal(s) => JsonView::Decimal(s@),
            Json::Text(s) => JsonView::Text(s@),
            Json::List(v) => JsonView::List(
                Seq::new(
                    v@.len(),
                    |i: int|
                        if 0 <= i < v@.len() {
                            v[i].view()
                        } else {
                            JsonView::Null
                        },
                ),
            ),
            Json::Object(v) => JsonView::Object(
                Seq::new(
                    v@.len(),
                    |i: int|
                        if 0 <= i < v@.len() {
                            (v[i].0@, v[i].1.view())
                        } else {
                            (Seq::empty(), JsonView::Null)
                        },
                ),
            ),
        }
    }
}

/// The empty object.
pub open spec fn empty_object() -> JsonView {
    JsonView::Object(Seq::empty())
}

impl JsonView {
    /// The object with one member more at its end.
    pub open spec fn with(self, key: Seq<char>, value: JsonView) -> JsonView {
        match self {
            JsonView::Object(s) => JsonView::Object(s.push((key, value))),
            _ => self,
        }
    }

    /// The list with one item more at its end.
    pub open spec fn then_item(self, value: JsonView) -> JsonView {
        match self {
            JsonView::List(s) => JsonView::List(s.push(value)),
            _ => self,
        }
    }
}

/// A list of texts.
pub open spec fn text_list(v: Seq<Seq<char>>) -> JsonView {
    JsonView::List(v.map_values(|s: Seq<char>| JsonView::Text(s)))
}

/// A text, or null where there is none.
pub open spec fn opt_text_value(s: Option<Seq<char>>) -> JsonView {
    match s {
        Some(t) => JsonView::Text(t),
        None => JsonView::Null,
    }
}

impl Json {
    /// A text.
    pub fn text(s: &str) -> (r: Json)
        ensures
            r@ == JsonView::Text(s@),
    {
        Json::Text(own(s))
    }

    /// A text, or null where there is none.
    pub fn opt_text(s: &Option<String>) -> (r: Json)
        ensures
            r@ == opt_text_value(crate::text::opt_text(*s)),
    {
        match s {
            Some(t) => Json::Text(t.clone()),
            None => Json::Null,
        }
    }

    /// The empty object.
    pub fn object() -> (r: Json)
        ensures
            r@ == empty_object(),
            r is Object,
    {
        let r = Json::Object(Vec::new());
        assert(r@->Object_0 =~= Seq::empty());
        r
    }

    /// The empty list.
    pub fn list() -> (r: Json)
        ensures
            r@ == JsonView::List(Seq::empty()),
            r is List,
    {
        let r = Json::List(Vec::new());
        assert(r@->List_0 =~= Seq::empty());
        r
    }

    /// The object with one member more at its end.
    pub fn with(self, key: &str, value: Json) -> (r: Json)
        requires
            self is Object,
        ensures
            r@ == self@.with(key@, value@),
            r is Object,
    {
        let ghost before = self@;
        match self {
            Json::Object(v) => {
                let mut w = v;
                w.push((own(key), value));
                let r = Json::Object(w);
                assert(r@->Object_0 =~= before->Object_0.push((key@, value@)));
                r
            },
            other => other,
        }
    }

    /// The list with one item more at its end.
    pub fn then_item(self, value: Json) -> (r: Json)
        requires
            self is List,
        ensures
            r@ == self@.then_item(value@),
            r is List,
    {
        let ghost before = self@;
        match self {
            Json::List(v) => {
                let mut w = v;
                w.push(value);
                let r = Json::List(w);
                assert(r@->List_0 =~= before->List_0.push(value@));
                r
            },
            other => other,
        }
    }

    /// A list of texts.
    pub fn texts(v: &Vec<String>) -> (r: Json)
        ensures
            r@ == text_list(texts(v@)),
            r is List,
    {
        let mut out = Json::list();
        assert(texts(v@).take(0).map_values(|s: Seq<char>| JsonView::Text(s)) =~= Seq::empty());
        for i in 0..v.len()
            invariant
                out is List,
                out@ == text_list(texts(v@).take(i as int)),
        {
            out = out.then_item(Json::text(&v[i]));
            assert(text_list(texts(v@).take(i + 1))->List_0 =~= text_list(
                texts(v@).take(i as int),
            )->List_0.push(JsonView::Text(v@[i as int]@)));
        }
        assert(texts(v@).take(v@.len() as int) =~= texts(v@));
        out
    }

    /// The member of an object under `key`, the first where there are several.
    pub fn get(&self, key: &str) -> (r: Option<&Json>)
        ensures
            match r {
                Some(j) => self@ is Object && exists|i: int|
                    0 <= i < self@->Object_0.len() && (#[trigger] self@->Object_0[i]) == (key@, j@)
                        && forall|k: int|
                        0 <= k < i ==> (#[trigger] self@->Object_0[k]).0 != key@,
                None => self@ is Object ==> forall|k: int|
                    0 <= k < self@->Object_0.len() ==> (#[trigger] self@->Object_0[k]).0 != key@,
            },
    {
        match self {
            Json::Object(v) => {
                for i in 0..v.len()
                    invariant
                        *self == Json::Object(*v),
                        forall|k: int|
                            0 <= k < i ==> (#[trigger] self@->Object_0[k]).0 != key@,
                {
                    assert(self@->Object_0[i as int] == (v@[i as int].0@, v@[i as int].1@));
                    if same(&v[i].0, key) {
                        return Some(&v[i].1);
                    }
                }
                None
            },
            _ => None,
        }
    }

    /// A copy of the value.
    pub fn copy(&self) -> (r: Json)
        ensures
            r@ == self@,
        decreases self,
    {
        match self {
            Json::Null => Json::Null,
            Json::Bool(b) => Json::Bool(*b),
            Json::Number(n) => Json::Number(*n),
            Json::Decimal(s) => Json::Decimal(s.clone()),
            Json::Text(s) => Json::Text(s.clone()),
            Json::List(v) => {
                let mut w: Vec<Json> = Vec::new();
                for i in 0..v.len()
                    invariant
                        *self == Json::List(*v),
                        w@.len() == i,
                        forall|k: int| 0 <= k < i ==> (#[trigger] w@[k])@ == v@[k]@,
                {
                    proof {
                        assert(decreases_to!(*self => self->List_0));
                        assert(decreases_to!(self->List_0 => self->List_0[i as int]));
                    }
                    w.push(v[i].copy());
                }
                let r = Json::List(w);
                assert(r@->List_0 =~= self@->List_0);
                r
            },
            Json::Object(v) => {
                let mut w: Vec<(String, Json)> = Vec::new();
                for i in 0..v.len()
                    invariant
                        *self == Json::Object(*v),
                        w@.len() == i,
                        forall|k: int|
                            0 <= k < i ==> (#[trigger] w@[k]).0@ == v@[k].0@ && w@[k].1@
                                == v@[k].1@,
                {
                    let item = &v[i];
                    proof {
                        assert(decreases_to!(*self => self->Object_0));
                        assert(decreases_to!(self->Object_0 => self->Object_0[i as int]));
                        assert(decreases_to!(self->Object_0[i as int] => self->Object_0[i as int].1));
                    }
                    w.push((item.0.clone(), item.1.copy()));
                }
                let r = Json::Object(w);
                assert(r@->Object_0 =~= self@->Object_0);
                r
            },
        }
    }

    /// The items of a list.
    pub fn items(&self) -> (r: Option<&Vec<Json>>)
        ensures
            match r {
                Some(v) => *self == Json::List(*v),
                None => !(self is List),
            },
    {
        match self {
            Json::List(v) => Some(v),
            _ => None,
        }
    }

    /// The text of a text value.
    pub fn as_text(&self) -> (r: Option<&str>)
        ensures
            match r {
                Some(s) => self@ == JsonView::Text(s@),
                None => !(self is Text),
            },
    {
        match self {
            Json::Text(s) => Some(s.as_str()),
            _ => None,
        }
    }
}

} // verus!

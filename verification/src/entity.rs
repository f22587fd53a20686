//! The HTTP data model: methods, the ordered header collection with its
//! case-folding rules, requests, responses, and the outcome of parsing one
//! request.

use vstd::prelude::*;
use crate::ascii::{
    bytes_of, bytes_eq, is_lower, lower_bytes, lower_seq, spec_trim_start, spec_find_from,
    find_from, str_bytes, trim_start_bytes,
};
use crate::codes::HttpCode;

verus! {

/// A request method the engine accepts; every other method token is
/// rejected while parsing.
#[derive(Clone, Copy, Debug, PartialEq, Eq, Structural)]
pub enum HttpMethod {
    GET,
    POST,
    OPTIONS,
}

/// The method named by a token, if the token names one.
pub open spec fn spec_method_of(s: Seq<u8>) -> Option<HttpMethod> {
    if s == bytes_of("GET"@) {
        Some(HttpMethod::GET)
    } else if s == bytes_of("POST"@) {
        Some(HttpMethod::POST)
    } else if s == bytes_of("OPTIONS"@) {
        Some(HttpMethod::OPTIONS)
    } else {
        None
    }
}

impl HttpMethod {
    /// Reads a method token.
    pub fn from_str(method: &[u8]) -> (r: Option<HttpMethod>)
        ensures
            r == spec_method_of(method@),
    {
        proof {
            reveal_strlit("GET");
            reveal_strlit("POST");
            reveal_strlit("OPTIONS");
        }
        if bytes_eq(method, str_bytes("GET").as_slice()) {
            Some(HttpMethod::GET)
        } else if bytes_eq(method, str_bytes("POST").as_slice()) {
            Some(HttpMethod::POST)
        } else if bytes_eq(method, str_bytes("OPTIONS").as_slice()) {
            Some(HttpMethod::OPTIONS)
        } else {
            None
        }
    }
}

/// One header entry: a name and a value.
#[derive(Debug)]
pub struct HttpHeader {
    pub name: Vec<u8>,
    pub value: Vec<u8>,
}

impl View for HttpHeader {
    type V = (Seq<u8>, Seq<u8>);

    open spec fn view(&self) -> Self::V {
        (self.name@, self.value@)
    }
}

/// An ordered collection of header entries. Names are folded to ASCII
/// lowercase on insertion and the collection keeps at most one entry per
/// folded name.
#[derive(Debug)]
pub struct HttpHeaders {
    contents: Vec<HttpHeader>,
}

/// The value bound to `name`, from the first entry carrying it.
pub open spec fn hdrs_get(h: Seq<(Seq<u8>, Seq<u8>)>, name: Seq<u8>) -> Option<Seq<u8>>
    decreases h.len(),
{
    if h.len() == 0 {
        None
    } else if h[0].0 == name {
        Some(h[0].1)
    } else {
        hdrs_get(h.drop_first(), name)
    }
}

/// The collection after binding `name` to `value`: the first entry named
/// `name` is overwritten in place, or a new entry is appended.
pub open spec fn hdrs_set(h: Seq<(Seq<u8>, Seq<u8>)>, name: Seq<u8>, value: Seq<u8>) -> Seq<
    (Seq<u8>, Seq<u8>),
>
    decreases h.len(),
{
    if h.len() == 0 {
        seq![(name, value)]
    } else if h[0].0 == name {
        seq![(name, value)] + h.drop_first()
    } else {
        seq![h[0]] + hdrs_set(h.drop_first(), name, value)
    }
}

/// The collection after a default insertion: unchanged when `name` is
/// already bound, extended by one entry otherwise.
pub open spec fn hdrs_set_default(h: Seq<(Seq<u8>, Seq<u8>)>, name: Seq<u8>, value: Seq<u8>) -> Seq<
    (Seq<u8>, Seq<u8>),
> {
    if hdrs_get(h, name) is Some {
        h
    } else {
        h.push((name, value))
    }
}

/// The collection with the first entry named `name` deleted.
pub open spec fn hdrs_remove(h: Seq<(Seq<u8>, Seq<u8>)>, name: Seq<u8>) -> Seq<(Seq<u8>, Seq<u8>)>
    decreases h.len(),
{
    if h.len() == 0 {
        h
    } else if h[0].0 == name {
        h.drop_first()
    } else {
        seq![h[0]] + hdrs_remove(h.drop_first(), name)
    }
}

/// Well-formedness of a header collection: every name is folded to
/// lowercase, and no two entries carry the same name.
pub open spec fn hdrs_wf(h: Seq<(Seq<u8>, Seq<u8>)>) -> bool {
    &&& forall|i: int| 0 <= i < h.len() ==> is_lower((#[trigger] h[i]).0)
    &&& forall|i: int, j: int| 0 <= i < j < h.len() ==> h[i].0 != h[j].0
}

/// Binding a name makes it readable: a lookup right after `hdrs_set`
/// returns exactly the value that was bound, so binding the same name
/// twice retains only the later value.
pub proof fn lemma_hdrs_set_get(h: Seq<(Seq<u8>, Seq<u8>)>, name: Seq<u8>, value: Seq<u8>)
    ensures
        hdrs_get(hdrs_set(h, name, value), name) == Some(value),
    decreases h.len(),
{
    if h.len() != 0 && h[0].0 != name {
        lemma_hdrs_set_get(h.drop_first(), name, value);
        assert((seq![h[0]] + hdrs_set(h.drop_first(), name, value)).drop_first() =~= hdrs_set(
            h.drop_first(),
            name,
            value,
        ));
    }
}

/// Binding one name leaves every other name unchanged.
pub proof fn lemma_hdrs_set_get_other(
    h: Seq<(Seq<u8>, Seq<u8>)>,
    name: Seq<u8>,
    value: Seq<u8>,
    other: Seq<u8>,
)
    requires
        other != name,
    ensures
        hdrs_get(hdrs_set(h, name, value), other) == hdrs_get(h, other),
    decreases h.len(),
{
    if h.len() == 0 {
        let r = hdrs_set(h, name, value);
        assert(r[0].0 == name);
        assert(hdrs_get(r, other) == hdrs_get(r.drop_first(), other));
        assert(r.drop_first() =~= Seq::<(Seq<u8>, Seq<u8>)>::empty());
        assert(hdrs_get(r.drop_first(), other) is None);
    } else if h[0].0 == name {
        let r = hdrs_set(h, name, value);
        assert(hdrs_get(r, other) == hdrs_get(r.drop_first(), other));
        assert(r.drop_first() =~= h.drop_first());
        assert(hdrs_get(h, other) == hdrs_get(h.drop_first(), other));
    } else {
        lemma_hdrs_set_get_other(h.drop_first(), name, value, other);
        let r = hdrs_set(h, name, value);
        assert(r == seq![h[0]] + hdrs_set(h.drop_first(), name, value));
        assert(r[0] == h[0]);
        if h[0].0 == other {
            assert(hdrs_get(r, other) == Some(r[0].1));
        } else {
            assert(hdrs_get(r, other) == hdrs_get(r.drop_first(), other));
            assert(r.drop_first() =~= hdrs_set(h.drop_first(), name, value));
            assert(hdrs_get(h, other) == hdrs_get(h.drop_first(), other));
        }
    }
}

/// `hdrs_set` preserves well-formedness when the bound name is folded.
pub proof fn lemma_hdrs_set_wf(h: Seq<(Seq<u8>, Seq<u8>)>, name: Seq<u8>, value: Seq<u8>)
    requires
        hdrs_wf(h),
        is_lower(name),
    ensures
        hdrs_wf(hdrs_set(h, name, value)),
    decreases h.len(),
{
    if h.len() == 0 {
    } else if h[0].0 == name {
        assert forall|i: int, j: int|
            0 <= i < j < hdrs_set(h, name, value).len() implies hdrs_set(h, name, value)[i].0
            != hdrs_set(h, name, value)[j].0 by {
            assert(hdrs_set(h, name, value)[i] == if i == 0 {
                (name, value)
            } else {
                h[i]
            });
        }
    } else {
        assert(hdrs_wf(h.drop_first()));
        lemma_hdrs_set_wf(h.drop_first(), name, value);
        let r = seq![h[0]] + hdrs_set(h.drop_first(), name, value);
        lemma_hdrs_set_names(h.drop_first(), name, value);
        assert forall|i: int, j: int| 0 <= i < j < r.len() implies r[i].0 != r[j].0 by {
            if i == 0 {
                assert(r[j] == hdrs_set(h.drop_first(), name, value)[j - 1]);
            } else {
                assert(r[i] == hdrs_set(h.drop_first(), name, value)[i - 1]);
                assert(r[j] == hdrs_set(h.drop_first(), name, value)[j - 1]);
            }
        }
    }
}

/// Every name in `hdrs_set(h, name, value)` is either `name` or a name
/// already present in `h`.
pub proof fn lemma_hdrs_set_names(h: Seq<(Seq<u8>, Seq<u8>)>, name: Seq<u8>, value: Seq<u8>)
    ensures
        forall|i: int|
            0 <= i < hdrs_set(h, name, value).len() ==> ((#[trigger] hdrs_set(h, name, value)[i]).0
                == name || exists|j: int| 0 <= j < h.len() && h[j].0 == hdrs_set(h, name, value)[i].0),
    decreases h.len(),
{
    if h.len() == 0 {
    } else if h[0].0 == name {
        assert forall|i: int| 0 <= i < hdrs_set(h, name, value).len() implies ((#[trigger] hdrs_set(
            h,
            name,
            value,
        )[i]).0 == name || exists|j: int|
            0 <= j < h.len() && h[j].0 == hdrs_set(h, name, value)[i].0) by {
            if i > 0 {
                assert(h[i].0 == hdrs_set(h, name, value)[i].0);
            }
        }
    } else {
        lemma_hdrs_set_names(h.drop_first(), name, value);
        assert forall|i: int| 0 <= i < hdrs_set(h, name, value).len() implies ((#[trigger] hdrs_set(
            h,
            name,
            value,
        )[i]).0 == name || exists|j: int|
            0 <= j < h.len() && h[j].0 == hdrs_set(h, name, value)[i].0) by {
            if i == 0 {
                assert(h[0].0 == hdrs_set(h, name, value)[0].0);
            } else {
                let inner = hdrs_set(h.drop_first(), name, value);
                assert(hdrs_set(h, name, value)[i] == inner[i - 1]);
                if inner[i - 1].0 != name {
                    let j = choose|j: int|
                        0 <= j < h.drop_first().len() && h.drop_first()[j].0 == inner[i - 1].0;
                    assert(h[j + 1].0 == hdrs_set(h, name, value)[i].0);
                }
            }
        }
    }
}

/// `hdrs_remove` preserves well-formedness.
pub proof fn lemma_hdrs_remove_wf(h: Seq<(Seq<u8>, Seq<u8>)>, name: Seq<u8>)
    requires
        hdrs_wf(h),
    ensures
        hdrs_wf(hdrs_remove(h, name)),
    decreases h.len(),
{
    if h.len() == 0 {
    } else if h[0].0 == name {
        assert(hdrs_wf(h.drop_first()));
    } else {
        assert(hdrs_wf(h.drop_first()));
        lemma_hdrs_remove_wf(h.drop_first(), name);
        lemma_hdrs_remove_names(h.drop_first(), name);
        let r = seq![h[0]] + hdrs_remove(h.drop_first(), name);
        assert forall|i: int, j: int| 0 <= i < j < r.len() implies r[i].0 != r[j].0 by {
            if i == 0 {
                assert(r[j] == hdrs_remove(h.drop_first(), name)[j - 1]);
            } else {
                assert(r[i] == hdrs_remove(h.drop_first(), name)[i - 1]);
                assert(r[j] == hdrs_remove(h.drop_first(), name)[j - 1]);
            }
        }
    }
}

/// Every name in `hdrs_remove(h, name)` is a name already present in `h`.
pub proof fn lemma_hdrs_remove_names(h: Seq<(Seq<u8>, Seq<u8>)>, name: Seq<u8>)
    ensures
        forall|i: int|
            0 <= i < hdrs_remove(h, name).len() ==> exists|j: int|
                0 <= j < h.len() && h[j].0 == (#[trigger] hdrs_remove(h, name)[i]).0,
    decreases h.len(),
{
    if h.len() == 0 {
    } else if h[0].0 == name {
        assert forall|i: int| 0 <= i < hdrs_remove(h, name).len() implies exists|j: int|
            0 <= j < h.len() && h[j].0 == (#[trigger] hdrs_remove(h, name)[i]).0 by {
            assert(h[i + 1].0 == hdrs_remove(h, name)[i].0);
        }
    } else {
        lemma_hdrs_remove_names(h.drop_first(), name);
        assert forall|i: int| 0 <= i < hdrs_remove(h, name).len() implies exists|j: int|
            0 <= j < h.len() && h[j].0 == (#[trigger] hdrs_remove(h, name)[i]).0 by {
            if i == 0 {
                assert(h[0].0 == hdrs_remove(h, name)[0].0);
            } else {
                let inner = hdrs_remove(h.drop_first(), name);
                assert(hdrs_remove(h, name)[i] == inner[i - 1]);
                let j = choose|j: int|
                    0 <= j < h.drop_first().len() && h.drop_first()[j].0 == inner[i - 1].0;
                assert(h[j + 1].0 == hdrs_remove(h, name)[i].0);
            }
        }
    }
}

impl View for HttpHeaders {
    type V = Seq<(Seq<u8>, Seq<u8>)>;

    closed spec fn view(&self) -> Self::V {
        self.contents@.map_values(|h: HttpHeader| h@)
    }
}

impl HttpHeaders {
    /// Well-formedness of the collection.
    pub open spec fn wf(&self) -> bool {
        hdrs_wf(self@)
    }

    /// A collection with no entries.
    pub fn empty() -> (r: Self)
        ensures
            r@ == Seq::<(Seq<u8>, Seq<u8>)>::empty(),
            r.wf(),
    {
        let r = HttpHeaders { contents: Vec::new() };
        proof {
            assert(r@ =~= Seq::<(Seq<u8>, Seq<u8>)>::empty());
        }
        r
    }

    /// A collection holding only a default `content-type` entry.
    pub fn from_type(content_type: &[u8]) -> (r: Self)
        ensures
            r@ == seq![(bytes_of("content-type"@), content_type@)],
            r.wf(),
    {
        let r = Self::empty().with_type(content_type);
        proof {
            assert(r@ =~= seq![(bytes_of("content-type"@), content_type@)]);
        }
        r
    }

    /// Adds a default `content-type` entry when none is present yet.
    pub fn with_type(self, content_type: &[u8]) -> (r: Self)
        requires
            self.wf(),
        ensures
            r@ == hdrs_set_default(self@, bytes_of("content-type"@), content_type@),
            r.wf(),
    {
        let mut r = self;
        proof {
            reveal_strlit("content-type");
            assert(is_lower(bytes_of("content-type"@)));
            crate::ascii::lemma_lower_seq_is_lower(bytes_of("content-type"@));
        }
        r.set_default(str_bytes("content-type").as_slice(), content_type);
        r
    }

    /// Binds `name` to `value`: the name is folded to lowercase, the value
    /// is trimmed of leading whitespace, and any earlier entry under the
    /// same folded name is overwritten.
    pub fn set(&mut self, name: &[u8], value: &[u8])
        requires
            old(self).wf(),
        ensures
            final (self)@ == hdrs_set(old(self)@, lower_seq(name@), spec_trim_start(value@)),
            final (self).wf(),
    {
        let lname = lower_bytes(name);
        let tvalue = trim_start_bytes(value);
        proof {
            crate::ascii::lemma_lower_seq_is_lower(name@);
            lemma_hdrs_set_wf(self@, lname@, tvalue@);
        }
        let ghost orig = self@;
        let mut i: usize = 0;
        while i < self.contents.len()
            invariant
                i <= self.contents.len(),
                self@ == orig,
                orig == old(self)@,
                hdrs_wf(orig),
                hdrs_wf(hdrs_set(orig, lname@, tvalue@)),
                lname@ == lower_seq(name@),
                tvalue@ == spec_trim_start(value@),
                forall|j: int| 0 <= j < i ==> (#[trigger] orig[j]).0 != lname@,
            decreases self.contents.len() - i,
        {
            if bytes_eq(self.contents[i].name.as_slice(), lname.as_slice()) {
                proof {
                    lemma_hdrs_set_at(orig, lname@, tvalue@, i as int);
                }
                let entry = HttpHeader { name: lname, value: tvalue };
                self.contents[i] = entry;
                proof {
                    assert(self@ =~= orig.update(i as int, (lower_seq(name@), spec_trim_start(
                        value@,
                    ))));
                }
                return ;
            }
            i = i + 1;
        }
        proof {
            lemma_hdrs_set_absent(orig, lname@, tvalue@);
        }
        self.contents.push(HttpHeader { name: lname, value: tvalue });
        proof {
            assert(self@ =~= orig.push((lower_seq(name@), spec_trim_start(value@))));
        }
    }

    /// Binds `name` to `value`; one name for the operation `set` performs.
    pub fn set_normal(&mut self, name: &[u8], value: &[u8])
        requires
            old(self).wf(),
        ensures
            final (self)@ == hdrs_set(old(self)@, lower_seq(name@), spec_trim_start(value@)),
            final (self).wf(),
    {
        self.set(name, value);
    }

    /// Binds `name` to `value`; one name for the operation `set` performs.
    pub fn push(&mut self, name: &[u8], value: &[u8])
        requires
            old(self).wf(),
        ensures
            final (self)@ == hdrs_set(old(self)@, lower_seq(name@), spec_trim_start(value@)),
            final (self).wf(),
    {
        self.set(name, value);
    }

    /// Binds `name` to `value` only when the folded name is not bound yet.
    pub fn set_default(&mut self, name: &[u8], value: &[u8])
        requires
            old(self).wf(),
        ensures
            final (self)@ == hdrs_set_default(old(self)@, lower_seq(name@), value@),
            final (self).wf(),
    {
        let lname = lower_bytes(name);
        proof {
            crate::ascii::lemma_lower_seq_is_lower(name@);
        }
        let ghost orig = self@;
        let mut i: usize = 0;
        while i < self.contents.len()
            invariant
                i <= self.contents.len(),
                self@ == orig,
                orig == old(self)@,
                hdrs_wf(orig),
                lname@ == lower_seq(name@),
                forall|j: int| 0 <= j < i ==> (#[trigger] orig[j]).0 != lname@,
            decreases self.contents.len() - i,
        {
            if bytes_eq(self.contents[i].name.as_slice(), lname.as_slice()) {
                proof {
                    lemma_hdrs_get_at(orig, lname@, i as int);
                }
                return ;
            }
            i = i + 1;
        }
        proof {
            lemma_hdrs_get_absent(orig, lname@);
        }
        self.contents.push(HttpHeader { name: lname, value: vstd::slice::slice_to_vec(value) });
        proof {
            assert(self@ =~= orig.push((lower_seq(name@), value@)));
        }
    }

    /// Binds `name` to `value` only when the folded name is not bound yet;
    /// one name for the operation `set_default` performs.
    pub fn push_default(&mut self, name: &[u8], value: &[u8])
        requires
            old(self).wf(),
        ensures
            final (self)@ == hdrs_set_default(old(self)@, lower_seq(name@), value@),
            final (self).wf(),
    {
        self.set_default(name, value);
    }

    /// Deletes the entry carrying the folded name, if one is present.
    pub fn remove(&mut self, name: &[u8])
        requires
            old(self).wf(),
        ensures
            final (self)@ == hdrs_remove(old(self)@, lower_seq(name@)),
            final (self).wf(),
    {
        let lname = lower_bytes(name);
        proof {
            lemma_hdrs_remove_wf(self@, lname@);
        }
        let ghost orig = self@;
        let mut i: usize = 0;
        while i < self.contents.len()
            invariant
                i <= self.contents.len(),
                self@ == orig,
                orig == old(self)@,
                hdrs_wf(orig),
                hdrs_wf(hdrs_remove(orig, lname@)),
                lname@ == lower_seq(name@),
                forall|j: int| 0 <= j < i ==> (#[trigger] orig[j]).0 != lname@,
            decreases self.contents.len() - i,
        {
            if bytes_eq(self.contents[i].name.as_slice(), lname.as_slice()) {
                proof {
                    lemma_hdrs_remove_at(orig, lname@, i as int);
                }
                self.contents.remove(i);
                proof {
                    assert(self@ =~= orig.remove(i as int));
                }
                return ;
            }
            i = i + 1;
        }
        proof {
            lemma_hdrs_remove_absent(orig, lname@);
        }
    }

    /// The value bound to the folded name, if one is present.
    pub fn get(&self, name: &[u8]) -> (r: Option<Vec<u8>>)
        ensures
            match r {
                Some(v) => hdrs_get(self@, lower_seq(name@)) == Some(v@),
                None => hdrs_get(self@, lower_seq(name@)) is None,
            },
    {
        let lname = lower_bytes(name);
        let mut i: usize = 0;
        while i < self.contents.len()
            invariant
                i <= self.contents.len(),
                lname@ == lower_seq(name@),
                forall|j: int| 0 <= j < i ==> (#[trigger] self@[j]).0 != lname@,
            decreases self.contents.len() - i,
        {
            if bytes_eq(self.contents[i].name.as_slice(), lname.as_slice()) {
                proof {
                    lemma_hdrs_get_at(self@, lname@, i as int);
                }
                return Some(vstd::slice::slice_to_vec(self.contents[i].value.as_slice()));
            }
            i = i + 1;
        }
        proof {
            lemma_hdrs_get_absent(self@, lname@);
        }
        None
    }

    /// How many entries the collection holds.
    pub fn len(&self) -> (r: usize)
        ensures
            r == self@.len(),
    {
        self.contents.len()
    }

    /// The name of the entry at `i`.
    pub fn name_at(&self, i: usize) -> (r: &Vec<u8>)
        requires
            i < self@.len(),
        ensures
            r@ == self@[i as int].0,
    {
        &self.contents[i].name
    }

    /// The value of the entry at `i`.
    pub fn value_at(&self, i: usize) -> (r: &Vec<u8>)
        requires
            i < self@.len(),
        ensures
            r@ == self@[i as int].1,
    {
        &self.contents[i].value
    }
}

/// When the first entry named `name` sits at position `i`, `hdrs_set`
/// is an in-place update there.
proof fn lemma_hdrs_set_at(h: Seq<(Seq<u8>, Seq<u8>)>, name: Seq<u8>, value: Seq<u8>, i: int)
    requires
        0 <= i < h.len(),
        h[i].0 == name,
        forall|j: int| 0 <= j < i ==> (#[trigger] h[j]).0 != name,
    ensures
        hdrs_set(h, name, value) == h.update(i, (name, value)),
    decreases i,
{
    if i == 0 {
        assert(hdrs_set(h, name, value) =~= h.update(0, (name, value)));
    } else {
        lemma_hdrs_set_at(h.drop_first(), name, value, i - 1);
        assert(hdrs_set(h, name, value) =~= h.update(i, (name, value)));
    }
}

/// When no entry is named `name`, `hdrs_set` appends one entry.
proof fn lemma_hdrs_set_absent(h: Seq<(Seq<u8>, Seq<u8>)>, name: Seq<u8>, value: Seq<u8>)
    requires
        forall|j: int| 0 <= j < h.len() ==> (#[trigger] h[j]).0 != name,
    ensures
        hdrs_set(h, name, value) == h.push((name, value)),
    decreases h.len(),
{
    if h.len() == 0 {
        assert(hdrs_set(h, name, value) =~= h.push((name, value)));
    } else {
        lemma_hdrs_set_absent(h.drop_first(), name, value);
        assert(hdrs_set(h, name, value) =~= h.push((name, value)));
    }
}

/// When the first entry named `name` sits at position `i`, `hdrs_get`
/// returns its value.
pub proof fn lemma_hdrs_get_at(h: Seq<(Seq<u8>, Seq<u8>)>, name: Seq<u8>, i: int)
    requires
        0 <= i < h.len(),
        h[i].0 == name,
        forall|j: int| 0 <= j < i ==> (#[trigger] h[j]).0 != name,
    ensures
        hdrs_get(h, name) == Some(h[i].1),
    decreases i,
{
    if i > 0 {
        lemma_hdrs_get_at(h.drop_first(), name, i - 1);
    }
}

/// When no entry is named `name`, `hdrs_get` finds nothing.
pub proof fn lemma_hdrs_get_absent(h: Seq<(Seq<u8>, Seq<u8>)>, name: Seq<u8>)
    requires
        forall|j: int| 0 <= j < h.len() ==> (#[trigger] h[j]).0 != name,
    ensures
        hdrs_get(h, name) is None,
    decreases h.len(),
{
    if h.len() > 0 {
        lemma_hdrs_get_absent(h.drop_first(), name);
    }
}

/// When the first entry named `name` sits at position `i`, `hdrs_remove`
/// deletes exactly that position.
proof fn lemma_hdrs_remove_at(h: Seq<(Seq<u8>, Seq<u8>)>, name: Seq<u8>, i: int)
    requires
        0 <= i < h.len(),
        h[i].0 == name,
        forall|j: int| 0 <= j < i ==> (#[trigger] h[j]).0 != name,
    ensures
        hdrs_remove(h, name) == h.remove(i),
    decreases i,
{
    if i == 0 {
        assert(hdrs_remove(h, name) =~= h.remove(0));
    } else {
        lemma_hdrs_remove_at(h.drop_first(), name, i - 1);
        assert(hdrs_remove(h, name) =~= h.remove(i));
    }
}

/// When no entry is named `name`, `hdrs_remove` changes nothing.
proof fn lemma_hdrs_remove_absent(h: Seq<(Seq<u8>, Seq<u8>)>, name: Seq<u8>)
    requires
        forall|j: int| 0 <= j < h.len() ==> (#[trigger] h[j]).0 != name,
    ensures
        hdrs_remove(h, name) == h,
    decreases h.len(),
{
    if h.len() == 0 {
        assert(hdrs_remove(h, name) =~= h);
    } else {
        lemma_hdrs_remove_absent(h.drop_first(), name);
        assert(hdrs_remove(h, name) =~= h);
    }
}

/// Reading a name is insensitive to ASCII case, on both sides: any two
/// spellings that fold to the same name reach the same entry, and a read
/// right after a bind returns the bound value. This is the law the
/// executable `set` and `get` obey, since both fold their argument before
/// touching the collection.
pub proof fn lemma_header_case_insensitive(
    h: Seq<(Seq<u8>, Seq<u8>)>,
    set_name: Seq<u8>,
    get_name: Seq<u8>,
    value: Seq<u8>,
)
    requires
        lower_seq(set_name) == lower_seq(get_name),
    ensures
        hdrs_get(hdrs_set(h, lower_seq(set_name), value), lower_seq(get_name)) == Some(value),
{
    lemma_hdrs_set_get(h, lower_seq(set_name), value);
}

/// Binding one name twice retains only the later value: the second bind
/// overwrites the entry the first one made.
pub proof fn lemma_hdrs_set_twice_latest(
    h: Seq<(Seq<u8>, Seq<u8>)>,
    name: Seq<u8>,
    first: Seq<u8>,
    second: Seq<u8>,
)
    ensures
        hdrs_get(hdrs_set(hdrs_set(h, name, first), name, second), name) == Some(second),
{
    lemma_hdrs_set_get(hdrs_set(h, name, first), name, second);
}

/// The outcome of parsing one request from a connection's bytes.
pub enum ParsingResult {
    /// A full request was read.
    Complete(Request),
    /// The bytes seen so far are a prefix of a request; more are needed.
    Partial,
    /// The request is malformed but classifiable: answer with this status,
    /// then close.
    Error(HttpCode),
    /// The request is too malformed to answer: close without a response.
    Invalid,
}

/// One parsed request.
#[derive(Debug)]
pub struct Request {
    pub path: Vec<u8>,
    pub query: Vec<u8>,
    pub headers: HttpHeaders,
    pub method: HttpMethod,
    pub body: Vec<u8>,
}

/// How a request target splits at its first `?`: the path before it and
/// the raw query string after it; without one the whole target is the
/// path and the query is empty.
pub open spec fn spec_split_target(t: Seq<u8>) -> (Seq<u8>, Seq<u8>) {
    match spec_find_from(t, 63, 0) {
        Some(i) => (t.take(i), t.skip(i + 1)),
        None => (t, Seq::<u8>::empty()),
    }
}

impl Request {
    /// A fresh request for a target: the target splits at its first `?`
    /// into path and query string; without one the query is empty.
    pub fn new(method: HttpMethod, url_path: Vec<u8>) -> (r: Request)
        ensures
            r.method == method,
            r.headers@ == Seq::<(Seq<u8>, Seq<u8>)>::empty(),
            r.headers.wf(),
            r.body@ == Seq::<u8>::empty(),
            r.path@ == spec_split_target(url_path@).0,
            r.query@ == spec_split_target(url_path@).1,
    {
        match find_from(url_path.as_slice(), 63, 0) {
            Some(i) => {
                proof {
                    crate::ascii::lemma_find_from(url_path@, 63, 0);
                }
                let path = vstd::slice::slice_subrange(url_path.as_slice(), 0, i);
                let query = vstd::slice::slice_subrange(url_path.as_slice(), i + 1, url_path.len());
                let r = Request {
                    path: vstd::slice::slice_to_vec(path),
                    query: vstd::slice::slice_to_vec(query),
                    headers: HttpHeaders::empty(),
                    method,
                    body: Vec::new(),
                };
                proof {
                    assert(r.path@ =~= url_path@.take(i as int));
                    assert(r.query@ =~= url_path@.skip(i + 1));
                    assert(r.body@ =~= Seq::<u8>::empty());
                }
                r
            },
            None => {
                let r = Request {
                    path: url_path,
                    query: Vec::new(),
                    headers: HttpHeaders::empty(),
                    method,
                    body: Vec::new(),
                };
                proof {
                    assert(r.query@ =~= Seq::<u8>::empty());
                    assert(r.body@ =~= Seq::<u8>::empty());
                }
                r
            },
        }
    }
}

/// What a response carries after its header section.
#[derive(Debug)]
pub enum ResponseType {
    /// Headers only.
    NoContent,
    /// A body of bytes.
    Payload(Vec<u8>),
    /// A protocol switch: headers and status go out, the raw stream is
    /// handed onward.
    Upgrade,
    /// Nothing is written at all; the connection still closes.
    Drop,
}

/// One response, consumed exactly once when it is written to the wire.
#[derive(Debug)]
pub struct Response {
    pub code: HttpCode,
    pub headers: HttpHeaders,
    pub payload: ResponseType,
}

impl Response {
    /// A plain-text response carrying `message`.
    pub fn from_code(code: HttpCode, message: &[u8]) -> (r: Response)
        ensures
            r.code == code,
            r.headers@ == seq![(bytes_of("content-type"@), bytes_of("text/plain"@))],
            r.headers.wf(),
            r.payload matches ResponseType::Payload(p) && p@ == message@,
    {
        proof {
            reveal_strlit("text/plain");
        }
        Response {
            code,
            headers: HttpHeaders::from_type(str_bytes("text/plain").as_slice()),
            payload: ResponseType::Payload(vstd::slice::slice_to_vec(message)),
        }
    }

    /// A bare status response with no headers and no body.
    pub fn from_status(code: HttpCode) -> (r: Response)
        ensures
            r.code == code,
            r.headers@ == Seq::<(Seq<u8>, Seq<u8>)>::empty(),
            r.headers.wf(),
            r.payload is NoContent,
    {
        Response { code, headers: HttpHeaders::empty(), payload: ResponseType::NoContent }
    }

    /// A response that suppresses all wire output while the connection
    /// still closes.
    pub fn drop() -> (r: Response)
        ensures
            r.code == HttpCode::GatewayTimeout,
            r.headers@ == Seq::<(Seq<u8>, Seq<u8>)>::empty(),
            r.headers.wf(),
            r.payload is Drop,
    {
        Response {
            code: HttpCode::GatewayTimeout,
            headers: HttpHeaders::empty(),
            payload: ResponseType::Drop,
        }
    }
}

} // verus!

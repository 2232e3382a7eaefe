use vstd::prelude::*;

verus! {

/// What `str::to_lowercase` makes of a string.
pub uninterp spec fn lower_of(s: Seq<char>) -> Seq<char>;

/// The value of the string field `key` of the JSON object in `text`, or
/// nothing when `text` is not a JSON object with such a field.
pub uninterp spec fn str_field_of(text: Seq<char>, key: Seq<char>) -> Option<Seq<char>>;

/// Relies on `str::to_lowercase`: the result depends on the characters alone.
#[verifier::external_body]
fn lowercase(s: &str) -> (r: String)
    ensures
        r@ == lower_of(s@),
{
    s.to_lowercase()
}

/// Relies on `serde_json::from_str` reading `text` as a `serde_json::Value`;
/// the field is what `Value::get(key)` and `Value::as_str` give, so text that
/// is not JSON, not an object, or has no string under `key` gives nothing.
#[verifier::external_body]
fn read_str_field(text: &str, key: &str) -> (r: Option<String>)
    ensures
        match r {
            Some(t) => str_field_of(text@, key@) == Some(t@),
            None => str_field_of(text@, key@) is None,
        },
{
    match serde_json::from_str::<serde_json::Value>(text) {
        Ok(v) => v.get(key).and_then(serde_json::Value::as_str).map(String::from),
        Err(_) => None,
    }
}

/// `r` is the first position of `names` whose lower case is `key`, or
/// nothing when there is none.
pub open spec fn is_first_match(names: Seq<Seq<char>>, key: Seq<char>, r: Option<usize>) -> bool {
    match r {
        Some(i) => {
            &&& i < names.len()
            &&& lower_of(names[i as int]) == key
            &&& forall|j: int| 0 <= j < i ==> lower_of(#[trigger] names[j]) != key
        },
        None => forall|j: int| 0 <= j < names.len() ==> lower_of(#[trigger] names[j]) != key,
    }
}

/// `r` is where the raw message `text` is routed in `endpoints`.
pub open spec fn routes_to<H>(endpoints: Endpoints<H>, text: Seq<char>, r: Option<usize>) -> bool {
    match str_field_of(text, "type"@) {
        Some(t) => is_first_match(endpoints.names(), lower_of(t), r),
        None => r is None,
    }
}

/// The table of handlers, each under a name; names are matched without
/// regard to case.
#[derive(Clone)]
#[verifier::reject_recursive_types(H)]
pub struct Endpoints<H> {
    entries: Vec<(String, H)>,
}

impl<H> Endpoints<H> {
    /// The names, in the order they were first added.
    pub closed spec fn names(&self) -> Seq<Seq<char>> {
        self.entries@.map_values(|e: (String, H)| e.0@)
    }

    /// The handlers, position by position with `names`.
    pub closed spec fn handlers(&self) -> Seq<H> {
        self.entries@.map_values(|e: (String, H)| e.1)
    }

    /// No name occurs twice.
    pub open spec fn wf(&self) -> bool {
        &&& self.handlers().len() == self.names().len()
        &&& self.names().no_duplicates()
    }

    /// An empty table.
    pub fn new() -> (r: Endpoints<H>)
        ensures
            r.wf(),
            r.names() == Seq::<Seq<char>>::empty(),
    {
        let r = Endpoints { entries: Vec::new() };
        assert(r.names() =~= Seq::<Seq<char>>::empty());
        r
    }

    /// Adds `handler` under `name`; a handler already under exactly that name
    /// is replaced.
    pub fn endpoint(&mut self, name: &str, handler: H)
        requires
            old(self).wf(),
        ensures
            final(self).wf(),
            old(self).names().contains(name@) ==> {
                &&& final(self).names() == old(self).names()
                &&& final(self).handlers() == old(self).handlers().update(
                    old(self).names().index_of(name@),
                    handler,
                )
            },
            !old(self).names().contains(name@) ==> {
                &&& final(self).names() == old(self).names().push(name@)
                &&& final(self).handlers() == old(self).handlers().push(handler)
            },
    {
        let key = String::from_str(name);
        let mut i: usize = 0;
        while i < self.entries.len()
            invariant
                i <= self.entries@.len(),
                key@ == name@,
                self.entries@ == old(self).entries@,
                old(self).wf(),
                forall|j: int| 0 <= j < i ==> self.entries@[j].0@ != name@,
            decreases self.entries@.len() - i,
        {
            if self.entries[i].0 == key {
                let ghost h = handler;
                self.entries.set(i, (key, handler));
                proof {
                    let o = old(self).names();
                    assert(self.entries@ == old(self).entries@.update(i as int, (key, h)));
                    assert(o[i as int] == name@);
                    assert forall|j: int| 0 <= j < i implies o[j] != name@ by {}
                    assert(o.contains(name@));
                    let c = o.index_of(name@);
                    assert(o[c] == o[i as int]);
                    assert(c == i);
                    assert(self.names() =~= o);
                    assert(self.handlers() =~= old(self).handlers().update(i as int, h));
                }
                return;
            }
            i = i + 1;
        }
        let ghost h = handler;
        self.entries.push((key, handler));
        proof {
            let o = old(self).names();
            assert(self.names() =~= o.push(name@));
            assert(self.handlers() =~= old(self).handlers().push(h));
            assert(!o.contains(name@));
        }
    }

    /// The number of handlers.
    pub fn len(&self) -> (r: usize)
        ensures
            r == self.names().len(),
    {
        self.entries.len()
    }

    /// The handler at position `i`.
    pub fn handler(&self, i: usize) -> (r: &H)
        requires
            self.wf(),
            i < self.names().len(),
        ensures
            *r == self.handlers()[i as int],
    {
        &self.entries[i].1
    }

    /// The position of the first handler whose name matches `kind`
    /// without regard to case.
    pub fn find_caller(&self, kind: &str) -> (r: Option<usize>)
        ensures
            is_first_match(self.names(), lower_of(kind@), r),
    {
        let key = lowercase(kind);
        let mut i: usize = 0;
        while i < self.entries.len()
            invariant
                i <= self.entries@.len(),
                key@ == lower_of(kind@),
                forall|j: int| 0 <= j < i ==> lower_of(#[trigger] self.names()[j]) != key@,
            decreases self.entries@.len() - i,
        {
            let name = lowercase(self.entries[i].0.as_str());
            if name == key {
                return Some(i);
            }
            i = i + 1;
        }
        None
    }

    /// The handler position for the raw message `text`: its "type" field,
    /// matched as `find_caller` does. Text without a string "type" field
    /// reaches no handler.
    pub fn route(&self, text: &str) -> (r: Option<usize>)
        ensures
            routes_to(*self, text@, r),
    {
        match read_str_field(text, "type") {
            Some(t) => self.find_caller(t.as_str()),
            None => None,
        }
    }
}

} // verus!

//! An ordered list of HTTP header fields, with lowercase names, as the gateway
//! rewrites them before forwarding a request.
use vstd::prelude::*;

verus! {

pub open spec fn field_view(f: (String, String)) -> (Seq<char>, Seq<char>) {
    (f.0@, f.1@)
}

/// `h` with every field named `name` left out.
pub open spec fn without_name(h: Seq<(Seq<char>, Seq<char>)>, name: Seq<char>) -> Seq<
    (Seq<char>, Seq<char>),
>
    decreases h.len(),
{
    if h.len() == 0 {
        h
    } else {
        let rest = without_name(h.drop_last(), name);
        if h.last().0 == name {
            rest
        } else {
            rest.push(h.last())
        }
    }
}

/// `h` with `name` set to the single value `value`, placed last.
pub open spec fn with_field(h: Seq<(Seq<char>, Seq<char>)>, name: Seq<char>, value: Seq<char>) -> Seq<
    (Seq<char>, Seq<char>),
> {
    without_name(h, name).push((name, value))
}

pub open spec fn has_name(h: Seq<(Seq<char>, Seq<char>)>, name: Seq<char>) -> bool {
    exists|i: int| 0 <= i < h.len() && h[i].0 == name
}

pub struct HeaderList {
    fields: Vec<(String, String)>,
}

impl View for HeaderList {
    type V = Seq<(Seq<char>, Seq<char>)>;

    closed spec fn view(&self) -> Seq<(Seq<char>, Seq<char>)> {
        self.fields@.map_values(|f: (String, String)| field_view(f))
    }
}

impl HeaderList {
    pub fn new() -> (r: HeaderList)
        ensures
            r@ == Seq::<(Seq<char>, Seq<char>)>::empty(),
    {
        let r = HeaderList { fields: Vec::new() };
        assert(r@ =~= Seq::<(Seq<char>, Seq<char>)>::empty());
        r
    }

    pub fn len(&self) -> (r: usize)
        ensures
            r == self@.len(),
    {
        self.fields.len()
    }

    /// The name and value of field `i`.
    pub fn field(&self, i: usize) -> (r: (&str, &str))
        requires
            i < self@.len(),
        ensures
            r.0@ == self@[i as int].0,
            r.1@ == self@[i as int].1,
    {
        let f = &self.fields[i];
        (f.0.as_str(), f.1.as_str())
    }

    /// Appends a field as it came, keeping any earlier field of that name.
    pub fn append(&mut self, name: String, value: String)
        ensures
            final(self)@ == old(self)@.push((name@, value@)),
    {
        self.fields.push((name, value));
        assert(self@ =~= old(self)@.push((name@, value@)));
    }

    pub fn contains(&self, name: &str) -> (r: bool)
        ensures
            r == has_name(self@, name@),
    {
        let wanted = String::from_str(name);
        let n = self.fields.len();
        let mut k: usize = 0;
        while k < n
            invariant
                n == self@.len(),
                k <= n,
                wanted@ == name@,
                forall|j: int| 0 <= j < k ==> self@[j].0 != name@,
            decreases n - k,
        {
            if self.fields[k].0 == wanted {
                assert(self@[k as int].0 == name@);
                return true;
            }
            k += 1;
        }
        false
    }

    pub fn clear(&mut self)
        ensures
            final(self)@ == Seq::<(Seq<char>, Seq<char>)>::empty(),
    {
        self.fields.clear();
        assert(self@ =~= Seq::<(Seq<char>, Seq<char>)>::empty());
    }

    /// Sets `name` to the single value `value`: earlier fields of that name go, the
    /// new field comes last.
    pub fn insert(&mut self, name: &str, value: String)
        ensures
            final(self)@ == with_field(old(self)@, name@, value@),
    {
        let wanted = String::from_str(name);
        let mut kept: Vec<(String, String)> = Vec::new();
        let mut rest: Vec<(String, String)> = Vec::new();
        std::mem::swap(&mut rest, &mut self.fields);
        let ghost h = old(self)@;
        let n = rest.len();
        let mut k: usize = 0;
        while k < n
            invariant
                wanted@ == name@,
                n == h.len(),
                k <= n,
                rest@.len() == n - k,
                forall|j: int| 0 <= j < n - k ==> field_view(#[trigger] rest@[j]) == h[j + k],
                kept@.map_values(|f: (String, String)| field_view(f)) == without_name(
                    h.take(k as int),
                    name@,
                ),
            decreases n - k,
        {
            let f = rest.remove(0);
            assert(field_view(f) == h[k as int]);
            assert(h.take(k + 1).drop_last() =~= h.take(k as int));
            if !(f.0 == wanted) {
                kept.push(f);
            }
            k += 1;
            assert(kept@.map_values(|f: (String, String)| field_view(f)) =~= without_name(
                h.take(k as int),
                name@,
            ));
        }
        assert(h.take(n as int) =~= h);
        let pair = (String::from_str(name), value);
        kept.push(pair);
        self.fields = kept;
        assert(self@ =~= with_field(h, name@, value@));
    }
}

} // verus!

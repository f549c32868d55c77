use vstd::prelude::*;
use vstd::string::StrSliceExecFns;
use vstd::string::StringExecFns;

verus! {

/// The title, if any, that `entries` associates with `id`: the second
/// component of the first pair whose first component is `id`.
pub open spec fn lookup(entries: Seq<(String, String)>, id: Seq<char>) -> Option<Seq<char>>
    decreases entries.len(),
{
    if entries.len() == 0 {
        None
    } else if entries[0].0@ == id {
        Some(entries[0].1@)
    } else {
        lookup(entries.drop_first(), id)
    }
}

/// The string with its first and its last character removed; shorter
/// strings come out empty.
pub open spec fn unquote_spec(s: Seq<char>) -> Seq<char> {
    if s.len() >= 2 {
        s.subrange(1, s.len() - 1)
    } else {
        Seq::empty()
    }
}

/// Strips one leading and one trailing character. Titles read back from the
/// backing store carry one incidental pair of quote characters around them;
/// this removes it before the title is put into a [`LinkIndex`].
pub fn unquote(s: &str) -> (r: &str)
    ensures
        r@ == unquote_spec(s@),
{
    let n = s.unicode_len();
    if n >= 2 {
        s.substring_char(1, n - 1)
    } else {
        let r = s.substring_char(0, 0);
        proof {
            assert(r@ =~= Seq::<char>::empty());
        }
        r
    }
}

/// A read-only index from internal document identifiers to document titles.
///
/// It stands in for the persisted key-value table that backs link
/// resolution: the caller loads the identifier/title pairs it needs, and the
/// render engine queries the index once per internal link.
pub struct LinkIndex {
    entries: Vec<(String, String)>,
}

impl View for LinkIndex {
    type V = Seq<(String, String)>;

    closed spec fn view(&self) -> Seq<(String, String)> {
        self.entries@
    }
}

impl LinkIndex {
    /// An index that knows no identifiers.
    pub fn new() -> (r: LinkIndex)
        ensures
            r@ == Seq::<(String, String)>::empty(),
    {
        LinkIndex { entries: Vec::new() }
    }

    /// Records that `id` names a document titled `title`. An identifier
    /// already present keeps its earlier title: resolution returns the
    /// first match.
    pub fn insert(&mut self, id: String, title: String)
        ensures
            final(self)@ == old(self)@.push((id, title)),
    {
        self.entries.push((id, title));
    }

    /// The title of the document named by `id`, or `None` when the index
    /// does not know the identifier.
    pub fn resolve(&self, id: &str) -> (r: Option<String>)
        ensures
            (match r {
                Some(t) => lookup(self@, id@) == Some(t@),
                None => lookup(self@, id@) is None,
            }),
    {
        let key: String = id.to_owned();
        let n = self.entries.len();
        let mut i: usize = 0;
        proof {
            assert(self@.skip(0) =~= self@);
        }
        while i < n
            invariant
                i <= n == self.entries.len(),
                key@ == id@,
                lookup(self@, id@) == lookup(self@.skip(i as int), id@),
            decreases n - i,
        {
            proof {
                assert(self@.skip(i as int)[0] == self.entries@[i as int]);
                assert(self@.skip(i as int).drop_first() =~= self@.skip(i as int + 1));
            }
            if self.entries[i].0 == key {
                return Some(self.entries[i].1.clone());
            }
            i += 1;
        }
        proof {
            assert(self@.skip(n as int).len() == 0);
        }
        None
    }
}

} // verus!

//! Word-list marshaling: converting the interpreter's linked-list argument
//! representation into a host-native ordered sequence of strings, and back.

use vstd::prelude::*;

verus! {

/// One word record of the interpreter's argument representation: a
/// character buffer and its expansion flags.
pub struct WordDesc {
    pub word: String,
    pub flags: u32,
}

/// The interpreter's linked list of word records; `Null` is the required
/// terminating sentinel.
pub enum WordList {
    Null,
    Node(WordDesc, Box<WordList>),
}

/// The words a list holds, in order, sentinel excluded.
pub open spec fn word_list_view(w: WordList) -> Seq<Seq<char>>
    decreases w,
{
    match w {
        WordList::Null => Seq::empty(),
        WordList::Node(d, rest) => seq![d.word@] + word_list_view(*rest),
    }
}

impl View for WordList {
    type V = Seq<Seq<char>>;

    open spec fn view(&self) -> Seq<Seq<char>> {
        word_list_view(*self)
    }
}

/// A word list together with its ownership marker: an owned list must be
/// released by whoever holds it, a borrowed one belongs to the caller.
/// The distinction exists because some interpreter entry points allocate
/// the list themselves and others expect the caller to.
pub struct Words {
    pub list: WordList,
    pub owned: bool,
}

impl View for Words {
    type V = Seq<Seq<char>>;

    open spec fn view(&self) -> Seq<Seq<char>> {
        self.list.view()
    }
}

/// Conversion of an argument representation into a [`Words`] list.
pub trait IntoWords: Sized {
    /// The words the value holds, in order.
    spec fn spec_words(&self) -> Seq<Seq<char>>;

    /// Wrap the value as a [`Words`] list with the given ownership marker.
    fn into_words(self, owned: bool) -> (r: Words)
        ensures
            r@ == self.spec_words(),
            r.owned == owned,
    ;
}

impl IntoWords for WordList {
    open spec fn spec_words(&self) -> Seq<Seq<char>> {
        self.view()
    }

    fn into_words(self, owned: bool) -> (r: Words) {
        Words { list: self, owned }
    }
}

/// Conversion of an argument representation into a vector of plain strings.
pub trait IntoVec: Sized {
    /// The words the value holds, in order.
    spec fn spec_vec(&self) -> Seq<Seq<char>>;

    /// The value's words as a host-native vector, order preserved.
    fn into_vec(self) -> (r: Vec<String>)
        ensures
            r.deep_view() == self.spec_vec(),
    ;
}

impl IntoVec for Words {
    open spec fn spec_vec(&self) -> Seq<Seq<char>> {
        self.view()
    }

    #[verifier::loop_isolation(false)]
    fn into_vec(self) -> (r: Vec<String>) {
        let ghost all = self@;
        let mut v: Vec<String> = Vec::new();
        let mut cur = self.list;
        loop
            invariant
                all == v.deep_view() + cur@,
            decreases cur,
        {
            match cur {
                WordList::Null => {
                    proof {
                        assert(all =~= v.deep_view());
                    }
                    return v;
                },
                WordList::Node(d, rest) => {
                    let ghost pre = v.deep_view();
                    let ghost rest_view = rest@;
                    v.push(d.word);
                    cur = *rest;
                    proof {
                        assert(v.deep_view() + cur@ =~= all);
                    }
                },
            }
        }
    }
}

impl Words {
    /// The list's words as a host-native vector, order preserved, without
    /// consuming the list.
    #[verifier::loop_isolation(false)]
    pub fn to_vec(&self) -> (r: Vec<String>)
        ensures
            r.deep_view() == self@,
    {
        let ghost all = self@;
        let mut v: Vec<String> = Vec::new();
        let mut cur: &WordList = &self.list;
        loop
            invariant
                all == v.deep_view() + cur@,
            decreases cur,
        {
            match cur {
                WordList::Null => {
                    proof {
                        assert(all =~= v.deep_view());
                    }
                    return v;
                },
                WordList::Node(d, rest) => {
                    let ghost pre = v.deep_view();
                    v.push(d.word.clone());
                    cur = rest;
                    proof {
                        assert(v.deep_view() + cur@ =~= all);
                    }
                },
            }
        }
    }

    /// An iterator over the list's words.
    pub fn iter(&self) -> (r: WordsIter<'_>)
        ensures
            r.rest@ == self@,
    {
        WordsIter { rest: &self.list }
    }
}

/// A cursor over the remaining words of a list.
pub struct WordsIter<'a> {
    pub rest: &'a WordList,
}

impl<'a> WordsIter<'a> {
    /// The next word, advancing the cursor; nothing at the sentinel.
    pub fn next(&mut self) -> (r: Option<&'a String>)
        ensures
            match r {
                Some(s) => {
                    &&& old(self).rest@.len() > 0
                    &&& s@ == old(self).rest@[0]
                    &&& final(self).rest@ == old(self).rest@.drop_first()
                },
                None => {
                    &&& old(self).rest@.len() == 0
                    &&& final(self).rest@ == old(self).rest@
                },
            },
    {
        match self.rest {
            WordList::Null => None,
            WordList::Node(d, rest) => {
                self.rest = rest;
                proof {
                    assert(self.rest@ =~= (seq![d.word@] + self.rest@).drop_first());
                }
                Some(&d.word)
            },
        }
    }
}

/// Build the interpreter's word-list representation from a host string
/// sequence, appending the required null terminator sentinel and marking
/// the result owned or borrowed as asked.
pub fn words_from_strs(v: &Vec<String>, owned: bool) -> (r: Words)
    ensures
        r@ == v.deep_view(),
        r.owned == owned,
{
    let n = v.len();
    let mut list = WordList::Null;
    proof {
        assert(list@ =~= v.deep_view().skip(n as int));
    }
    for k in 0..n
        invariant
            n == v.len(),
            list@ == v.deep_view().skip(n - k),
    {
        let i = n - 1 - k;
        list = WordList::Node(
            WordDesc { word: v[i].clone(), flags: 0 },
            Box::new(list),
        );
        proof {
            assert(list@ =~= v.deep_view().skip(n - (k + 1)));
        }
    }
    proof {
        assert(v.deep_view().skip(0) =~= v.deep_view());
    }
    Words { list, owned }
}

/// Marshaling round-trip law: a host string sequence converted into a
/// foreign word list (`words_from_strs`) and back (`to_vec` or `into_vec`)
/// is the original sequence, order preserved, for any finite sequence
/// including the empty one.  The premises are exactly what the two
/// conversions ensure.
pub proof fn lemma_marshal_round_trip(v: Vec<String>, w: Words, out: Vec<String>)
    requires
        w@ == v.deep_view(),
        out.deep_view() == w@,
    ensures
        out.deep_view() == v.deep_view(),
        out.deep_view().len() == v.len(),
        forall|i: int| 0 <= i < v.len() ==> out.deep_view()[i] == v.deep_view()[i],
{
}

} // verus!

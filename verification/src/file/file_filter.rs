//! The filter that lets a path through by its extension.

use crate::search::file::FileFilter;
use crate::text::{
    chars_of, find_last, last_index_of, lemma_last_index_of, range_equals, texts,
};
use vstd::prelude::*;
use vstd::string::StrSliceExecFns;

verus! {

/// `path` without the separators it ends with.
pub open spec fn without_trailing_separators(path: Seq<char>) -> Seq<char>
    decreases path.len(),
{
    if path.len() > 0 && path.last() == '/' {
        without_trailing_separators(path.drop_last())
    } else {
        path
    }
}

/// The last component of `path`: what stands between its last separator and
/// its end, separators at the very end left aside; all of it where it has no
/// other separator.
pub open spec fn final_component(path: Seq<char>) -> Seq<char> {
    let trimmed = without_trailing_separators(path);
    trimmed.skip(last_index_of(trimmed, '/') + 1)
}

/// The extension of `path`: what follows the last dot of its last component;
/// empty where that component has no dot.
pub open spec fn extension_of(path: Seq<char>) -> Seq<char> {
    let name = final_component(path);
    let dot = last_index_of(name, '.');
    if dot < 0 {
        Seq::empty()
    } else {
        name.skip(dot + 1)
    }
}

/// The pieces of `text` between its occurrences of `mark`, in order. A text
/// without `mark`, the empty one too, is one piece.
pub open spec fn split_on(text: Seq<char>, mark: char) -> Seq<Seq<char>>
    decreases text.len(),
    via split_on_decreases
{
    let cut = last_index_of(text, mark);
    if cut < 0 {
        seq![text]
    } else {
        split_on(text.take(cut), mark).push(text.skip(cut + 1))
    }
}

#[via_fn]
proof fn split_on_decreases(text: Seq<char>, mark: char) {
    lemma_last_index_of(text, mark);
}

/// The extensions that a comma-separated list names, in order.
pub fn split_extensions(list: &str) -> (extensions: Vec<String>)
    ensures
        texts(extensions@) == split_on(list@, ','),
{
    let chars = chars_of(list);
    let n = chars.len();
    let mut backwards: Vec<String> = Vec::new();
    let mut end: usize = n;
    let mut open = true;
    assert(chars@.take(n as int) =~= chars@);
    assert(texts(backwards@).reverse() =~= Seq::<Seq<char>>::empty());
    while open
        invariant
            end <= n == chars.len(),
            chars@ == list@,
            open ==> split_on(list@, ',') == split_on(list@.take(end as int), ',') + texts(
                backwards@,
            ).reverse(),
            !open ==> split_on(list@, ',') == texts(backwards@).reverse(),
        decreases end + if open { 1int } else { 0int },
    {
        let ghost head = list@.take(end as int);
        let ghost sofar = texts(backwards@);
        proof {
            lemma_last_index_of(head, ',');
        }
        match find_last(&chars, end, ',') {
            Some(cut) => {
                backwards.push(list.substring_char(cut + 1, end).to_owned());
                proof {
                    let piece = head.skip(cut + 1);
                    assert(piece =~= list@.subrange(cut + 1, end as int));
                    assert(head.take(cut as int) =~= list@.take(cut as int));
                    assert(texts(backwards@) =~= sofar.push(piece));
                    assert(sofar.push(piece).reverse() =~= seq![piece] + sofar.reverse());
                    assert(split_on(head, ',') == split_on(list@.take(cut as int), ',').push(piece));
                    assert(split_on(list@.take(cut as int), ',').push(piece) + sofar.reverse()
                        =~= split_on(list@.take(cut as int), ',') + (seq![piece]
                        + sofar.reverse()));
                }
                end = cut;
            },
            None => {
                backwards.push(list.substring_char(0, end).to_owned());
                proof {
                    assert(head =~= list@.subrange(0, end as int));
                    assert(texts(backwards@) =~= sofar.push(head));
                    assert(sofar.push(head).reverse() =~= seq![head] + sofar.reverse());
                }
                open = false;
            },
        }
    }
    let mut extensions: Vec<String> = Vec::new();
    let ghost all = texts(backwards@);
    while backwards.len() > 0
        invariant
            texts(extensions@) + texts(backwards@).reverse() =~= all.reverse(),
        decreases backwards.len(),
    {
        let ghost rest = texts(backwards@);
        let ghost done = texts(extensions@);
        let piece = backwards.pop().unwrap();
        extensions.push(piece);
        proof {
            assert(texts(backwards@) =~= rest.drop_last());
            assert(texts(extensions@) =~= done.push(piece@));
            assert(rest.reverse() =~= seq![piece@] + rest.drop_last().reverse());
            assert(texts(extensions@) + texts(backwards@).reverse() =~= done + rest.reverse());
        }
    }
    assert(texts(backwards@).reverse() =~= Seq::<Seq<char>>::empty());
    extensions
}

/// Lets a path through where its extension is one of a fixed list. Letter
/// case counts.
pub struct ExtensionFileFilter {
    allowed_extensions: Vec<String>,
}

impl ExtensionFileFilter {
    /// The extensions that the filter lets through, each without a dot.
    pub closed spec fn allowed(&self) -> Seq<Seq<char>> {
        self.allowed_extensions@.map_values(|extension: String| extension@)
    }

    /// A filter for the given extensions, each without its dot.
    pub fn new(extensions: Vec<String>) -> (filter: Self)
        ensures
            filter.allowed() == extensions@.map_values(|extension: String| extension@),
    {
        Self { allowed_extensions: extensions }
    }
}

impl FileFilter for ExtensionFileFilter {
    open spec fn accepts(&self, path: Seq<char>) -> bool {
        self.allowed().contains(extension_of(path))
    }

    fn is_target(&self, path: &str) -> (target: bool) {
        let chars = chars_of(path);
        let mut end: usize = chars.len();
        assert(chars@.take(end as int) =~= chars@);
        while end > 0 && chars[end - 1] == '/'
            invariant
                end <= chars.len(),
                without_trailing_separators(chars@) == without_trailing_separators(
                    chars@.take(end as int),
                ),
            decreases end,
        {
            assert(chars@.take(end as int).drop_last() =~= chars@.take(end - 1));
            end -= 1;
        }
        let ghost trimmed = chars@.take(end as int);
        assert(without_trailing_separators(chars@) == trimmed);
        let name_start: usize = match find_last(&chars, end, '/') {
            Some(separator) => separator + 1,
            None => 0,
        };
        proof {
            lemma_skip_keeps_last_index(trimmed, name_start as int, '.');
        }
        let extension_start: usize = match find_last(&chars, end, '.') {
            Some(dot) if dot >= name_start => dot + 1,
            _ => end,
        };
        let ghost extension = chars@.subrange(extension_start as int, end as int);
        assert(extension =~= extension_of(path@)) by {
            let name = final_component(path@);
            let dot = last_index_of(name, '.');
            if dot >= 0 {
                assert(name.skip(dot + 1) =~= trimmed.skip(name_start + dot + 1));
            }
        }
        let mut i: usize = 0;
        while i < self.allowed_extensions.len()
            invariant
                i <= self.allowed_extensions.len(),
                extension_start <= end <= chars.len(),
                extension == chars@.subrange(extension_start as int, end as int),
                extension == extension_of(path@),
                forall|j: int| 0 <= j < i ==> self.allowed()[j] != extension,
            decreases self.allowed_extensions.len() - i,
        {
            let candidate = chars_of(self.allowed_extensions[i].as_str());
            if range_equals(&chars, extension_start, end, &candidate) {
                assert(self.allowed()[i as int] == extension);
                assert(self.allowed().contains(extension));
                return true;
            }
            i += 1;
        }
        false
    }
}

/// The last `mark` of what follows the first `from` characters is the last
/// `mark` of the whole text where that lies at `from` or after, and there is
/// none where it lies before.
pub proof fn lemma_skip_keeps_last_index(text: Seq<char>, from: int, mark: char)
    requires
        0 <= from <= text.len(),
    ensures
        last_index_of(text.skip(from), mark) == if last_index_of(text, mark) >= from {
            last_index_of(text, mark) - from
        } else {
            -1
        },
    decreases text.len(),
{
    if text.len() > from {
        assert(text.skip(from).last() == text.last());
        assert(text.skip(from).drop_last() =~= text.drop_last().skip(from));
        if text.last() != mark {
            lemma_skip_keeps_last_index(text.drop_last(), from, mark);
        }
    } else {
        assert(text.skip(from).len() == 0);
        crate::text::lemma_last_index_of(text, mark);
    }
}

} // verus!

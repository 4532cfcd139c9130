//! Sequence-tagging datasets: blocks of token and tag lines, one block per
//! sample, with blank lines between the blocks.

use vstd::prelude::*;
use crate::config::{default_config, DataConfig, DataConfigView};
use crate::error::DatasetError;
use crate::text::{split_at_tab, split_once_tab, trim_end, trim_line};

verus! {

/// Whether a raw line holds nothing but whitespace.
pub open spec fn is_blank(line: Seq<char>) -> bool {
    trim_end(line).len() == 0
}

/// The token and the tag of a raw line: the line is trimmed at its end and
/// cut at its first tab.
pub open spec fn item_of_line(line: Seq<char>) -> Option<(Seq<char>, Seq<char>)> {
    split_at_tab(trim_end(line))
}

/// The items of the lines of one block, line for line; the first line
/// without a tab makes the block malformed.
pub open spec fn items_of_lines(lines: Seq<Seq<char>>) -> Result<
    Seq<(Seq<char>, Seq<char>)>,
    DatasetError,
>
    decreases lines.len(),
{
    if lines.len() == 0 {
        Ok(Seq::empty())
    } else {
        match items_of_lines(lines.drop_last()) {
            Err(e) => Err(e),
            Ok(front) => match item_of_line(lines.last()) {
                None => Err(DatasetError::MalformedRecord { line: (lines.len() - 1) as usize }),
                Some(item) => Ok(front.push(item)),
            },
        }
    }
}

/// The blocks of a file: each run of lines that are not blank, as long as it
/// can be, gives one block of items. A line that is not blank and has no tab
/// makes the file malformed; the first such line is reported.
pub open spec fn blocks_of_lines(lines: Seq<Seq<char>>) -> Result<
    Seq<Seq<(Seq<char>, Seq<char>)>>,
    DatasetError,
>
    decreases lines.len(),
{
    if lines.len() == 0 {
        Ok(Seq::empty())
    } else {
        match blocks_of_lines(lines.drop_last()) {
            Err(e) => Err(e),
            Ok(front) => if is_blank(lines.last()) {
                Ok(front)
            } else {
                match item_of_line(lines.last()) {
                    None => Err(DatasetError::MalformedRecord { line: (lines.len() - 1) as usize }),
                    Some(item) => if lines.len() >= 2 && !is_blank(lines[lines.len() - 2]) {
                        Ok(front.drop_last().push(front.last().push(item)))
                    } else {
                        Ok(front.push(seq![item]))
                    },
                }
            },
        }
    }
}

/// The contents of a vector of items.
pub open spec fn items_view(items: Seq<(String, String)>) -> Seq<(Seq<char>, Seq<char>)> {
    Seq::new(items.len(), |i: int| (items[i].0@, items[i].1@))
}

/// The contents of a sequence of samples.
pub open spec fn tagging_views(samples: Seq<TaggingSample>) -> Seq<Seq<(Seq<char>, Seq<char>)>> {
    Seq::new(samples.len(), |i: int| samples[i]@)
}

/// The blocks read so far: those that are closed, and the one that is still
/// growing, if it holds anything.
pub open spec fn with_open_block(
    closed: Seq<Seq<(Seq<char>, Seq<char>)>>,
    open: Seq<(Seq<char>, Seq<char>)>,
) -> Seq<Seq<(Seq<char>, Seq<char>)>> {
    if open.len() > 0 {
        closed.push(open)
    } else {
        closed
    }
}

/// A block that fails on some of its first lines fails in the same way as a whole.
pub proof fn lemma_items_prefix_err(lines: Seq<Seq<char>>, k: int)
    requires
        0 <= k <= lines.len(),
        items_of_lines(lines.take(k)) is Err,
    ensures
        items_of_lines(lines) == items_of_lines(lines.take(k)),
    decreases lines.len() - k,
{
    if k == lines.len() {
        assert(lines.take(k) =~= lines);
    } else {
        assert(lines.take(k + 1).drop_last() =~= lines.take(k));
        lemma_items_prefix_err(lines, k + 1);
    }
}

/// A file that fails on some of its first lines fails in the same way as a whole.
pub proof fn lemma_blocks_prefix_err(lines: Seq<Seq<char>>, k: int)
    requires
        0 <= k <= lines.len(),
        blocks_of_lines(lines.take(k)) is Err,
    ensures
        blocks_of_lines(lines) == blocks_of_lines(lines.take(k)),
    decreases lines.len() - k,
{
    if k == lines.len() {
        assert(lines.take(k) =~= lines);
    } else {
        assert(lines.take(k + 1).drop_last() =~= lines.take(k));
        lemma_blocks_prefix_err(lines, k + 1);
    }
}

/// No block of a file is empty, and a file whose last line is not blank has
/// at least one block.
pub proof fn lemma_blocks_not_empty(lines: Seq<Seq<char>>)
    ensures
        blocks_of_lines(lines) matches Ok(blocks) ==> {
            &&& forall|i: int| 0 <= i < blocks.len() ==> (#[trigger] blocks[i]).len() > 0
            &&& (lines.len() > 0 && !is_blank(lines.last()) ==> blocks.len() > 0)
        },
    decreases lines.len(),
{
    if lines.len() > 0 {
        lemma_blocks_not_empty(lines.drop_last());
    }
}

/// The lines of a file that are not blank, in order.
pub open spec fn lines_with_items(lines: Seq<Seq<char>>) -> Seq<Seq<char>> {
    lines.filter(|line: Seq<char>| !is_blank(line))
}

/// A file yields blocks exactly if each of its lines that is not blank has a
/// tab; the blocks, one after the other, then hold the items of these lines
/// in the order of the lines.
pub proof fn lemma_blocks_of_lines(lines: Seq<Seq<char>>)
    ensures
        blocks_of_lines(lines) is Ok <==> forall|i: int|
            0 <= i < lines.len() && !is_blank(lines[i]) ==> (#[trigger] item_of_line(
                lines[i],
            )) is Some,
        blocks_of_lines(lines) matches Ok(blocks) ==> {
            let kept = lines_with_items(lines);
            &&& blocks.flatten().len() == kept.len()
            &&& forall|i: int|
                0 <= i < kept.len() ==> item_of_line(kept[i]) == Some(#[trigger] blocks.flatten()[i])
        },
    decreases lines.len(),
{
    let keep = |line: Seq<char>| !is_blank(line);
    if lines.len() == 0 {
        assert(lines.filter(keep) =~= Seq::<Seq<char>>::empty()) by {
            reveal(Seq::filter);
        }
    } else {
        let front = lines.drop_last();
        let last = lines.last();
        lemma_blocks_of_lines(front);
        lemma_blocks_not_empty(front);
        assert(front.push(last) =~= lines);
        front.lemma_filter_push(last, keep);
        assert forall|i: int| 0 <= i < front.len() implies front[i] == lines[i] by {}
        match blocks_of_lines(front) {
            Ok(found) => {
                if !is_blank(last) {
                    match item_of_line(last) {
                        Some(item) => {
                            if lines.len() >= 2 && !is_blank(lines[lines.len() - 2]) {
                                assert(front.last() == lines[lines.len() - 2]);
                                let grown = found.drop_last().push(found.last().push(item));
                                found.drop_last().lemma_flatten_push(found.last());
                                found.drop_last().lemma_flatten_push(found.last().push(item));
                                assert(found.drop_last().push(found.last()) =~= found);
                                assert(grown.flatten() =~= found.flatten().push(item));
                            } else {
                                found.lemma_flatten_push(seq![item]);
                                assert(found.push(seq![item]).flatten() =~= found.flatten().push(
                                    item,
                                ));
                            }
                        },
                        None => {},
                    }
                }
            },
            Err(_) => {
                let i = choose|i: int|
                    0 <= i < front.len() && !is_blank(front[i]) && !((#[trigger] item_of_line(
                        front[i],
                    )) is Some);
                assert(item_of_line(lines[i]) is None);
            },
        }
    }
}

/// The tokens of one sample, each with its tag.
#[derive(Debug)]
pub struct TaggingSample {
    items: Vec<(String, String)>,
}

impl View for TaggingSample {
    type V = Seq<(Seq<char>, Seq<char>)>;

    closed spec fn view(&self) -> Seq<(Seq<char>, Seq<char>)> {
        items_view(self.items@)
    }
}

impl TaggingSample {
    /// The sample of a sequence of items.
    pub fn new(items: Vec<(String, String)>) -> (r: Self)
        ensures
            r@ == items_view(items@),
    {
        TaggingSample { items }
    }

    /// The items of the sample.
    pub fn items(&self) -> (r: &Vec<(String, String)>)
        ensures
            items_view(r@) == self@,
    {
        &self.items
    }

    /// Reads one sample from the lines of its block: each line is trimmed at
    /// its end and cut at its first tab into token and tag. Stops at the
    /// first line without a tab.
    pub fn from_lines(contents: &Vec<String>) -> (r: Result<Self, DatasetError>)
        ensures
            match r {
                Ok(sample) => items_of_lines(contents.deep_view()) == Ok::<
                    Seq<(Seq<char>, Seq<char>)>,
                    DatasetError,
                >(sample@),
                Err(e) => items_of_lines(contents.deep_view()) == Err::<
                    Seq<(Seq<char>, Seq<char>)>,
                    DatasetError,
                >(e),
            },
            r matches Ok(sample) ==> sample@.len() == contents@.len(),
    {
        let ghost all = contents.deep_view();
        let mut items: Vec<(String, String)> = Vec::new();
        proof {
            assert(items_view(items@) =~= Seq::<(Seq<char>, Seq<char>)>::empty());
        }
        for i in 0..contents.len()
            invariant
                all == contents.deep_view(),
                items@.len() == i,
                items_of_lines(all.take(i as int)) == Ok::<
                    Seq<(Seq<char>, Seq<char>)>,
                    DatasetError,
                >(items_view(items@)),
        {
            proof {
                assert(all.take(i + 1).drop_last() =~= all.take(i as int));
            }
            let ghost before = items@;
            match split_once_tab(trim_line(contents[i].as_str())) {
                Some((token, tag)) => {
                    items.push((token, tag));
                    proof {
                        assert(items_view(items@) =~= items_view(before).push((token@, tag@)));
                    }
                },
                None => {
                    proof {
                        lemma_items_prefix_err(all, i + 1);
                    }
                    return Err(DatasetError::MalformedRecord { line: i });
                },
            }
        }
        proof {
            assert(all.take(contents.len() as int) =~= all);
        }
        Ok(TaggingSample { items })
    }

    /// Reads the samples of a file: the lines between two blank lines, or
    /// between a blank line and an end of the file, form one sample. Stops at
    /// the first line that is not blank and has no tab.
    pub fn from_blocks(lines: &Vec<String>) -> (r: Result<Vec<Self>, DatasetError>)
        ensures
            match r {
                Ok(samples) => blocks_of_lines(lines.deep_view()) == Ok::<
                    Seq<Seq<(Seq<char>, Seq<char>)>>,
                    DatasetError,
                >(tagging_views(samples@)),
                Err(e) => blocks_of_lines(lines.deep_view()) == Err::<
                    Seq<Seq<(Seq<char>, Seq<char>)>>,
                    DatasetError,
                >(e),
            },
    {
        let ghost all = lines.deep_view();
        let mut samples: Vec<TaggingSample> = Vec::new();
        let mut items: Vec<(String, String)> = Vec::new();
        proof {
            assert(tagging_views(samples@) =~= Seq::<Seq<(Seq<char>, Seq<char>)>>::empty());
        }
        for i in 0..lines.len()
            invariant
                all == lines.deep_view(),
                blocks_of_lines(all.take(i as int)) == Ok::<
                    Seq<Seq<(Seq<char>, Seq<char>)>>,
                    DatasetError,
                >(with_open_block(tagging_views(samples@), items_view(items@))),
                items@.len() > 0 <==> i > 0 && !is_blank(all[i - 1]),
        {
            proof {
                assert(all.take(i + 1).drop_last() =~= all.take(i as int));
            }
            let ghost closed = tagging_views(samples@);
            let ghost open = items_view(items@);
            let trimmed = trim_line(lines[i].as_str());
            if trimmed.is_empty() {
                if items.len() > 0 {
                    let mut block: Vec<(String, String)> = Vec::new();
                    std::mem::swap(&mut items, &mut block);
                    let sample = TaggingSample::new(block);
                    samples.push(sample);
                    proof {
                        assert(tagging_views(samples@) =~= closed.push(open));
                    }
                }
            } else {
                match split_once_tab(trimmed) {
                    Some((token, tag)) => {
                        items.push((token, tag));
                        proof {
                            let item = (token@, tag@);
                            assert(items_view(items@) =~= open.push(item));
                            if open.len() > 0 {
                                assert(closed.push(open).drop_last() =~= closed);
                            } else {
                                assert(open.push(item) =~= seq![item]);
                            }
                        }
                    },
                    None => {
                        proof {
                            lemma_blocks_prefix_err(all, i + 1);
                        }
                        return Err(DatasetError::MalformedRecord { line: i });
                    },
                }
            }
        }
        proof {
            assert(all.take(lines.len() as int) =~= all);
        }
        if items.len() > 0 {
            let ghost closed = tagging_views(samples@);
            let ghost open = items_view(items@);
            let sample = TaggingSample::new(items);
            samples.push(sample);
            proof {
                assert(tagging_views(samples@) =~= closed.push(open));
            }
        }
        Ok(samples)
    }
}

/// The mathematical content of a `TaggingDataset`.
pub struct TaggingDatasetView {
    pub path: Seq<char>,
    pub config: DataConfigView,
}

/// A tagging dataset: a directory and the configuration of the build.
#[derive(Debug)]
pub struct TaggingDataset<'a> {
    path: &'a str,
    config: DataConfig,
}

impl<'a> View for TaggingDataset<'a> {
    type V = TaggingDatasetView;

    closed spec fn view(&self) -> TaggingDatasetView {
        TaggingDatasetView { path: self.path@, config: self.config@ }
    }
}

impl<'a> TaggingDataset<'a> {
    /// The dataset of the directory `path` under the default configuration.
    pub fn new(path: &'a str) -> (r: Self)
        ensures
            r@ == (TaggingDatasetView { path: path@, config: default_config() }),
    {
        TaggingDataset { path, config: DataConfig::default() }
    }

    /// The dataset of the directory `path` under `config`.
    pub fn with_config(path: &'a str, config: DataConfig) -> (r: Self)
        ensures
            r@ == (TaggingDatasetView { path: path@, config: config@ }),
    {
        TaggingDataset { path, config }
    }

    /// The dataset directory.
    pub fn path(&self) -> (r: &'a str)
        ensures
            r@ == self@.path,
    {
        self.path
    }

    /// The configuration of the build.
    pub fn config(&self) -> (r: &DataConfig)
        ensures
            r@ == self@.config,
    {
        &self.config
    }
}

} // verus!

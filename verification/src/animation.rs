//! The animation metadata baker: from the frame tags of sprite sheets to one
//! table of (name, frame count) pairs.
//!
//! The sheets are taken in the order given, the tags of a sheet in the order
//! the sheet lists them, and every tag gives one entry: nothing is merged,
//! and a name that occurs twice stays twice. A tag without a name is called
//! `"unknown"`, and a bound that a tag does not give is 0. A tag that ends
//! before it starts is refused, and with it the whole bake.

use vstd::prelude::*;
use vstd::seq_lib::lemma_flatten_concat;
use crate::error::BakeError;

verus! {

/// A frame tag as a sheet's metadata holds it: each of its three fields may
/// be missing.
#[derive(Clone, Debug, PartialEq, Eq)]
pub struct RawTag {
    pub name: Option<String>,
    pub from: Option<i64>,
    pub to: Option<i64>,
}

/// A named range of frames, `from` and `to` included.
#[derive(Clone, Debug, PartialEq, Eq)]
pub struct AnimationTag {
    pub name: String,
    pub from: i64,
    pub to: i64,
}

/// An entry of the baked table: a tag's name and the number of its frames.
#[derive(Clone, Debug, PartialEq, Eq)]
pub struct BakedTag {
    pub name: String,
    pub frame_count: u128,
}

/// What a [`RawTag`] stands for.
pub struct RawTagView {
    pub name: Option<Seq<char>>,
    pub from: Option<i64>,
    pub to: Option<i64>,
}

/// What an [`AnimationTag`] stands for.
pub struct AnimationTagView {
    pub name: Seq<char>,
    pub from: int,
    pub to: int,
}

/// What a [`BakedTag`] stands for.
pub struct BakedTagView {
    pub name: Seq<char>,
    pub frame_count: nat,
}

impl View for RawTag {
    type V = RawTagView;

    open spec fn view(&self) -> RawTagView {
        RawTagView {
            name: match self.name {
                Some(name) => Some(name@),
                None => None,
            },
            from: self.from,
            to: self.to,
        }
    }
}

impl View for AnimationTag {
    type V = AnimationTagView;

    open spec fn view(&self) -> AnimationTagView {
        AnimationTagView { name: self.name@, from: self.from as int, to: self.to as int }
    }
}

impl View for BakedTag {
    type V = BakedTagView;

    open spec fn view(&self) -> BakedTagView {
        BakedTagView { name: self.name@, frame_count: self.frame_count as nat }
    }
}

/// The name of a tag that gives none.
pub const PLACEHOLDER_NAME: &'static str = "unknown";

/// The name of a tag that gives none, as a sequence of characters.
pub open spec fn placeholder_name() -> Seq<char> {
    PLACEHOLDER_NAME@
}

impl RawTagView {
    /// The tag with what is missing filled in: the placeholder for the name,
    /// 0 for a bound.
    pub open spec fn resolved(self) -> AnimationTagView {
        AnimationTagView {
            name: match self.name {
                Some(name) => name,
                None => placeholder_name(),
            },
            from: match self.from {
                Some(from) => from as int,
                None => 0,
            },
            to: match self.to {
                Some(to) => to as int,
                None => 0,
            },
        }
    }

    /// Whether the tag can be baked: filled in, it does not end before it
    /// starts.
    pub open spec fn bakes(self) -> bool {
        self.resolved().well_formed()
    }

    /// The table entry of the tag.
    pub open spec fn baked(self) -> BakedTagView {
        self.resolved().baked()
    }
}

impl AnimationTagView {
    /// A tag is well formed when it does not end before it starts.
    pub open spec fn well_formed(self) -> bool {
        self.from <= self.to
    }

    /// The number of frames from `from` to `to`, both included.
    pub open spec fn frame_count(self) -> int {
        self.to - self.from + 1
    }

    /// The table entry of the tag.
    pub open spec fn baked(self) -> BakedTagView {
        BakedTagView { name: self.name, frame_count: self.frame_count() as nat }
    }
}

impl RawTag {
    /// Fills in what the tag does not give: `"unknown"` for the name, 0 for a
    /// bound.
    pub fn resolve(&self) -> (tag: AnimationTag)
        ensures
            tag@ == self@.resolved(),
    {
        let name = match &self.name {
            Some(name) => name.clone(),
            None => PLACEHOLDER_NAME.to_owned(),
        };
        let from: i64 = match self.from {
            Some(from) => from,
            None => 0,
        };
        let to: i64 = match self.to {
            Some(to) => to,
            None => 0,
        };
        AnimationTag { name, from, to }
    }

    /// The table entry of the tag, or `None` where, filled in, it ends before
    /// it starts.
    pub fn bake(&self) -> (entry: Option<BakedTag>)
        ensures
            entry is Some <==> self@.bakes(),
            entry matches Some(baked) ==> baked@ == self@.baked(),
    {
        self.resolve().bake()
    }
}

impl AnimationTag {
    /// The number of frames of the tag, or `None` where it ends before it
    /// starts. The count of a well-formed tag is at least 1; it can reach
    /// 2^64, which is why it is a `u128`.
    pub fn frame_count(&self) -> (count: Option<u128>)
        ensures
            count is Some <==> self@.well_formed(),
            count matches Some(n) ==> n == self.to - self.from + 1 && n >= 1,
    {
        if self.to < self.from {
            None
        } else {
            let span: i128 = self.to as i128 - self.from as i128;
            Some((span + 1) as u128)
        }
    }

    /// The table entry of the tag, or `None` where it ends before it starts.
    pub fn bake(self) -> (entry: Option<BakedTag>)
        ensures
            entry is Some <==> self@.well_formed(),
            entry matches Some(baked) ==> baked@ == self@.baked(),
    {
        match self.frame_count() {
            Some(frame_count) => Some(BakedTag { name: self.name, frame_count }),
            None => None,
        }
    }
}

/// The tags of a sheet, each taken by its view.
pub open spec fn tags_view(tags: Seq<RawTag>) -> Seq<RawTagView> {
    tags.map_values(|tag: RawTag| tag@)
}

/// A sheet taken by its view: the views of its tags, or `None` where the
/// sheet could not be loaded.
pub open spec fn sheet_view(sheet: Option<Vec<RawTag>>) -> Option<Seq<RawTagView>> {
    match sheet {
        Some(tags) => Some(tags_view(tags@)),
        None => None,
    }
}

/// The sheets, each taken by its view.
pub open spec fn sheets_view(sheets: Seq<Option<Vec<RawTag>>>) -> Seq<Option<Seq<RawTagView>>> {
    sheets.map_values(|sheet: Option<Vec<RawTag>>| sheet_view(sheet))
}

/// The entries of a table, each taken by its view.
pub open spec fn table_view(table: Seq<BakedTag>) -> Seq<BakedTagView> {
    table.map_values(|entry: BakedTag| entry@)
}

/// The outcome of a bake with the table, if any, taken by its view.
pub open spec fn outcome_view(result: Result<Vec<BakedTag>, BakeError>) -> Result<
    Seq<BakedTagView>,
    BakeError,
> {
    match result {
        Ok(table) => Ok(table_view(table@)),
        Err(e) => Err(e),
    }
}

/// Whether each of the tags can be baked.
pub open spec fn tags_bake(tags: Seq<RawTagView>) -> bool {
    forall|t: int| 0 <= t < tags.len() ==> (#[trigger] tags[t]).bakes()
}

/// Whether a sheet can be baked: it was loaded, and each of its tags can be
/// baked.
pub open spec fn sheet_bakes(sheet: Option<Seq<RawTagView>>) -> bool {
    match sheet {
        Some(tags) => tags_bake(tags),
        None => false,
    }
}

/// Whether every one of the sheets can be baked.
pub open spec fn all_bake(sheets: Seq<Option<Seq<RawTagView>>>) -> bool {
    forall|f: int| 0 <= f < sheets.len() ==> sheet_bakes(#[trigger] sheets[f])
}

/// The entries that a sheet gives: one per tag, in the sheet's order.
pub open spec fn sheet_entries(sheet: Option<Seq<RawTagView>>) -> Seq<BakedTagView> {
    match sheet {
        Some(tags) => tags.map_values(|tag: RawTagView| tag.baked()),
        None => Seq::empty(),
    }
}

/// The table that the sheets give: the entries of the first sheet, then those
/// of the second, and so on.
pub open spec fn baked_table(sheets: Seq<Option<Seq<RawTagView>>>) -> Seq<BakedTagView> {
    sheets.map_values(|sheet: Option<Seq<RawTagView>>| sheet_entries(sheet)).flatten()
}

/// Whether `outcome` is what baking `sheets` gives.
///
/// The bake succeeds exactly when every sheet can be baked, and then gives
/// [`baked_table`]. Otherwise it names the first sheet that cannot be baked:
/// as [`BakeError::Load`] where that sheet was not loaded, else as
/// [`BakeError::MalformedTag`] with the first of its tags that cannot be
/// baked.
pub open spec fn is_bake_of(
    sheets: Seq<Option<Seq<RawTagView>>>,
    outcome: Result<Seq<BakedTagView>, BakeError>,
) -> bool {
    match outcome {
        Ok(table) => all_bake(sheets) && table == baked_table(sheets),
        Err(BakeError::Load { file }) => {
            &&& file < sheets.len()
            &&& all_bake(sheets.take(file as int))
            &&& sheets[file as int] is None
        },
        Err(BakeError::MalformedTag { file, tag }) => {
            &&& file < sheets.len()
            &&& all_bake(sheets.take(file as int))
            &&& sheets[file as int] matches Some(tags)
            &&& tag < tags.len()
            &&& tags_bake(tags.take(tag as int))
            &&& !tags[tag as int].bakes()
        },
        Err(BakeError::LayerKind) => false,
    }
}

/// Bakes the frame tags of sprite sheets into one table.
///
/// `sheets` holds, in the order the sheets were given, the tags of each, or
/// `None` for a sheet that could not be loaded.
pub fn bake_sheets(sheets: &Vec<Option<Vec<RawTag>>>) -> (result: Result<Vec<BakedTag>, BakeError>)
    ensures
        is_bake_of(sheets_view(sheets@), outcome_view(result)),
        result is Ok <==> all_bake(sheets_view(sheets@)),
        result matches Ok(table) ==> {
            &&& table_view(table@) == baked_table(sheets_view(sheets@))
            &&& forall|i: int| 0 <= i < table@.len() ==> (#[trigger] table@[i]).frame_count >= 1
        },
{
    let ghost views = sheets_view(sheets@);
    let mut table: Vec<BakedTag> = Vec::new();
    let mut file: usize = 0;
    proof {
        assert(views.take(0) =~= Seq::empty());
        assert(table_view(table@) =~= baked_table(views.take(0)));
    }
    while file < sheets.len()
        invariant
            file <= sheets.len(),
            views == sheets_view(sheets@),
            all_bake(views.take(file as int)),
            table_view(table@) == baked_table(views.take(file as int)),
            forall|i: int| 0 <= i < table@.len() ==> (#[trigger] table@[i]).frame_count >= 1,
        decreases sheets.len() - file,
    {
        let ghost before = table_view(table@);
        match &sheets[file] {
            None => {
                proof {
                    lemma_failure_is_first(views, Err(BakeError::Load { file }));
                }
                return Err(BakeError::Load { file });
            },
            Some(tags) => {
                let ghost tag_views = tags_view(tags@);
                assert(views[file as int] == Some(tag_views));
                let mut tag: usize = 0;
                proof {
                    assert(tag_views.take(0) =~= Seq::empty());
                    assert(sheet_entries(Some(tag_views.take(0))) =~= Seq::empty());
                    assert(before + Seq::<BakedTagView>::empty() =~= before);
                }
                while tag < tags.len()
                    invariant
                        tag <= tags.len(),
                        file < sheets.len(),
                        views == sheets_view(sheets@),
                        views[file as int] == Some(tag_views),
                        tag_views == tags_view(tags@),
                        all_bake(views.take(file as int)),
                        tags_bake(tag_views.take(tag as int)),
                        table_view(table@) == before + sheet_entries(
                            Some(tag_views.take(tag as int)),
                        ),
                        forall|i: int|
                            0 <= i < table@.len() ==> (#[trigger] table@[i]).frame_count >= 1,
                    decreases tags.len() - tag,
                {
                    assert(tag_views[tag as int] == tags[tag as int]@);
                    match tags[tag].bake() {
                        Some(entry) => {
                            proof {
                                let done = tag_views.take(tag as int);
                                let next = tag_views.take(tag + 1);
                                assert(next =~= done.push(tag_views[tag as int]));
                                assert(sheet_entries(Some(next)) =~= sheet_entries(Some(done)).push(
                                    entry@,
                                ));
                                assert(table_view(table@.push(entry)) =~= table_view(table@).push(
                                    entry@,
                                ));
                            }
                            table.push(entry);
                        },
                        None => {
                            proof {
                                lemma_failure_is_first(
                                    views,
                                    Err(BakeError::MalformedTag { file, tag }),
                                );
                            }
                            return Err(BakeError::MalformedTag { file, tag });
                        },
                    }
                    tag = tag + 1;
                }
                proof {
                    assert(tag_views.take(tag as int) =~= tag_views);
                    lemma_take_one_more(views, file as int);
                }
            },
        }
        file = file + 1;
    }
    proof {
        assert(views.take(file as int) =~= views);
    }
    Ok(table)
}

/// Whether entry `i` is the first entry of `table` that carries `name`.
pub open spec fn is_first_named(table: Seq<BakedTag>, name: Seq<char>, i: int) -> bool {
    &&& 0 <= i < table.len()
    &&& table[i]@.name == name
    &&& forall|j: int| 0 <= j < i ==> (#[trigger] table[j])@.name != name
}

/// Finds the frame count that the table gives for `name`: that of the first
/// entry with that name, whatever later entries say, or `None` where no
/// entry has it.
pub fn find_frame_count(table: &Vec<BakedTag>, name: &str) -> (found: Option<u128>)
    ensures
        match found {
            Some(count) => exists|i: int|
                is_first_named(table@, name@, i) && count == (#[trigger] table@[i]).frame_count,
            None => forall|j: int| 0 <= j < table@.len() ==> (#[trigger] table@[j])@.name != name@,
        },
{
    let wanted = name.to_owned();
    let mut index: usize = 0;
    while index < table.len()
        invariant
            index <= table.len(),
            wanted@ == name@,
            forall|j: int| 0 <= j < index ==> (#[trigger] table@[j])@.name != name@,
        decreases table.len() - index,
    {
        if table[index].name == wanted {
            assert(is_first_named(table@, name@, index as int));
            return Some(table[index].frame_count);
        }
        index = index + 1;
    }
    None
}

/// Success is owed: where every sheet can be baked, the bake gives the table
/// of the sheets; where one cannot, it fails.
pub proof fn lemma_bake_succeeds_iff(
    sheets: Seq<Option<Seq<RawTagView>>>,
    outcome: Result<Seq<BakedTagView>, BakeError>,
)
    requires
        is_bake_of(sheets, outcome),
    ensures
        outcome is Ok <==> all_bake(sheets),
        all_bake(sheets) ==> outcome == Ok::<Seq<BakedTagView>, BakeError>(baked_table(sheets)),
{
    lemma_failure_is_first(sheets, outcome);
}

/// Taking one more sheet adds that sheet's entries to the end of the table,
/// and keeps "every sheet can be baked" if the new sheet can be baked.
proof fn lemma_take_one_more(sheets: Seq<Option<Seq<RawTagView>>>, file: int)
    requires
        0 <= file < sheets.len(),
    ensures
        baked_table(sheets.take(file + 1)) == baked_table(sheets.take(file)) + sheet_entries(
            sheets[file],
        ),
        all_bake(sheets.take(file)) && sheet_bakes(sheets[file]) ==> all_bake(
            sheets.take(file + 1),
        ),
{
    let head = sheets.take(file);
    let one = seq![sheets[file]];
    assert(sheets.take(file + 1) =~= head + one);
    lemma_baked_table_concat(head, one);
    lemma_baked_table_single(sheets[file]);
    if all_bake(head) && sheet_bakes(sheets[file]) {
        assert forall|f: int| 0 <= f < sheets.take(file + 1).len() implies sheet_bakes(
            #[trigger] sheets.take(file + 1)[f],
        ) by {
            if f < file {
                assert(sheets.take(file + 1)[f] == head[f]);
            }
        }
    }
}

/// The table of one sheet alone is that sheet's entries.
pub proof fn lemma_baked_table_single(sheet: Option<Seq<RawTagView>>)
    ensures
        baked_table(seq![sheet]) == sheet_entries(sheet),
{
    let mapped = seq![sheet].map_values(|s: Option<Seq<RawTagView>>| sheet_entries(s));
    assert(mapped =~= seq![sheet_entries(sheet)]);
    mapped.lemma_flatten_one_element();
    assert(mapped.first() == sheet_entries(sheet));
}

/// Order is kept: the table of the sheets `first` followed by the sheets
/// `second` is the table of `first` followed by the table of `second`, entry
/// for entry.
pub proof fn lemma_baked_table_concat(
    first: Seq<Option<Seq<RawTagView>>>,
    second: Seq<Option<Seq<RawTagView>>>,
)
    ensures
        baked_table(first + second) == baked_table(first) + baked_table(second),
{
    let entries = |sheet: Option<Seq<RawTagView>>| sheet_entries(sheet);
    assert((first + second).map_values(entries) =~= first.map_values(entries) + second.map_values(
        entries,
    ));
    lemma_flatten_concat(first.map_values(entries), second.map_values(entries));
}

/// Every tag has its place: in the table of the sheets, the entry of tag `tag`
/// of sheet `file` stands that many places after all the entries of the
/// sheets before `file`.
pub proof fn lemma_entry_position(sheets: Seq<Option<Seq<RawTagView>>>, file: int, tag: int)
    requires
        0 <= file < sheets.len(),
        sheets[file] is Some,
        0 <= tag < sheets[file]->0.len(),
    ensures
        baked_table(sheets.take(file)).len() + tag < baked_table(sheets).len(),
        baked_table(sheets)[baked_table(sheets.take(file)).len() + tag]
            == sheets[file]->0[tag].baked(),
{
    let upto = sheets.take(file + 1);
    let rest = sheets.skip(file + 1);
    assert(sheets =~= upto + rest);
    lemma_baked_table_concat(upto, rest);
    lemma_take_one_more(sheets, file);
}

/// Order is kept by the bake itself: where baking `first` gives a table and
/// baking `second` gives a table, baking `first` followed by `second` gives
/// the first table followed by the second.
pub proof fn lemma_bake_of_concat(
    first: Seq<Option<Seq<RawTagView>>>,
    second: Seq<Option<Seq<RawTagView>>>,
    first_table: Seq<BakedTagView>,
    second_table: Seq<BakedTagView>,
)
    requires
        is_bake_of(first, Ok(first_table)),
        is_bake_of(second, Ok(second_table)),
    ensures
        is_bake_of(first + second, Ok(first_table + second_table)),
{
    lemma_baked_table_concat(first, second);
    assert forall|f: int| 0 <= f < (first + second).len() implies sheet_bakes(
        #[trigger] (first + second)[f],
    ) by {
        if f < first.len() {
            assert((first + second)[f] == first[f]);
        } else {
            assert((first + second)[f] == second[f - first.len()]);
        }
    }
}

/// Baking is a function of what the sheets hold: two outcomes of baking the
/// same sheets are the same, table for table and error for error.
pub proof fn lemma_bake_is_deterministic(
    sheets: Seq<Option<Seq<RawTagView>>>,
    one: Result<Seq<BakedTagView>, BakeError>,
    other: Result<Seq<BakedTagView>, BakeError>,
)
    requires
        is_bake_of(sheets, one),
        is_bake_of(sheets, other),
    ensures
        one == other,
{
    lemma_failure_is_first(sheets, one);
    lemma_failure_is_first(sheets, other);
    if one is Err && other is Err {
        let file = failed_file(one);
        let other_file = failed_file(other);
        assert(file == other_file);
        if let Some(tags) = sheets[file] {
            let tag = failed_tag(one);
            let other_tag = failed_tag(other);
            if tag < other_tag {
                assert(tags.take(other_tag)[tag] == tags[tag]);
            } else if other_tag < tag {
                assert(tags.take(tag)[other_tag] == tags[other_tag]);
            }
            assert(tag == other_tag);
        }
    }
}

/// The position of the sheet that a failed outcome names; 0 for any other
/// outcome.
spec fn failed_file(outcome: Result<Seq<BakedTagView>, BakeError>) -> int {
    match outcome {
        Err(BakeError::Load { file }) => file as int,
        Err(BakeError::MalformedTag { file, tag }) => file as int,
        _ => 0,
    }
}

/// The position of the tag that a failed outcome names; 0 for any other
/// outcome.
spec fn failed_tag(outcome: Result<Seq<BakedTagView>, BakeError>) -> int {
    match outcome {
        Err(BakeError::MalformedTag { file, tag }) => tag as int,
        _ => 0,
    }
}

/// A failed bake names a sheet that cannot be baked, and every sheet before
/// it can be.
proof fn lemma_failure_is_first(
    sheets: Seq<Option<Seq<RawTagView>>>,
    outcome: Result<Seq<BakedTagView>, BakeError>,
)
    requires
        is_bake_of(sheets, outcome),
    ensures
        outcome is Err ==> {
            &&& 0 <= failed_file(outcome) < sheets.len()
            &&& !sheet_bakes(sheets[failed_file(outcome)])
            &&& !all_bake(sheets)
            &&& forall|f: int|
                0 <= f < failed_file(outcome) ==> sheet_bakes(#[trigger] sheets[f])
        },
{
    if outcome is Err {
        let file = failed_file(outcome);
        assert forall|f: int| 0 <= f < file implies sheet_bakes(#[trigger] sheets[f]) by {
            assert(sheets.take(file)[f] == sheets[f]);
        }
    }
}

} // verus!

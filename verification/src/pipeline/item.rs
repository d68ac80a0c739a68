//! Directory entries, work items, and the enumerator that turns the one into
//! the other.

use vstd::prelude::*;

verus! {

/// One entry of the input directory, as the caller read it: its name inside
/// the directory and whether it is itself a directory.
#[derive(Debug)]
pub struct ListingEntry {
    pub name: String,
    pub is_dir: bool,
}

/// The mathematical value of a `ListingEntry`.
pub struct EntryView {
    pub name: Seq<char>,
    pub is_dir: bool,
}

impl View for ListingEntry {
    type V = EntryView;

    open spec fn view(&self) -> EntryView {
        EntryView { name: self.name@, is_dir: self.is_dir }
    }
}

impl DeepView for ListingEntry {
    type V = EntryView;

    open spec fn deep_view(&self) -> EntryView {
        self@
    }
}

/// A file named by the directory that holds it and its name in there, the
/// final component of its path.
#[derive(Debug)]
pub struct FilePath {
    pub dir: String,
    pub name: String,
}

/// The mathematical value of a `FilePath`.
pub struct PathView {
    pub dir: Seq<char>,
    pub name: Seq<char>,
}

impl View for FilePath {
    type V = PathView;

    open spec fn view(&self) -> PathView {
        PathView { dir: self.dir@, name: self.name@ }
    }
}

impl DeepView for FilePath {
    type V = PathView;

    open spec fn deep_view(&self) -> PathView {
        self@
    }
}

/// The unit of dispatch: one source file together with the directory its
/// thumbnail goes to.
#[derive(Debug)]
pub struct WorkItem {
    pub source: FilePath,
    pub output_dir: String,
}

/// The mathematical value of a `WorkItem`.
pub struct WorkItemView {
    pub source: PathView,
    pub output_dir: Seq<char>,
}

impl WorkItemView {
    /// Where the thumbnail goes: the output directory, under the source's own
    /// file name.
    pub open spec fn output_path(self) -> PathView {
        PathView { dir: self.output_dir, name: self.source.name }
    }
}

impl View for WorkItem {
    type V = WorkItemView;

    open spec fn view(&self) -> WorkItemView {
        WorkItemView { source: self.source@, output_dir: self.output_dir@ }
    }
}

impl DeepView for WorkItem {
    type V = WorkItemView;

    open spec fn deep_view(&self) -> WorkItemView {
        self@
    }
}

impl Clone for FilePath {
    fn clone(&self) -> (copy: FilePath)
        ensures
            copy@ == self@,
    {
        FilePath { dir: self.dir.clone(), name: self.name.clone() }
    }
}

impl Clone for WorkItem {
    fn clone(&self) -> (copy: WorkItem)
        ensures
            copy@ == self@,
    {
        WorkItem { source: self.source.clone(), output_dir: self.output_dir.clone() }
    }
}

impl WorkItem {
    /// The path the thumbnail of this item is written to.
    pub fn output_path(&self) -> (target: FilePath)
        ensures
            target@ == self@.output_path(),
    {
        FilePath { dir: self.output_dir.clone(), name: self.source.name.clone() }
    }
}

/// The work item that a regular file of the listing gives rise to.
pub open spec fn work_item_for(entry: EntryView, input_dir: Seq<char>, output_dir: Seq<char>)
    -> WorkItemView {
    WorkItemView { source: PathView { dir: input_dir, name: entry.name }, output_dir }
}

/// The work items of a listing: one per entry that is not a directory, in
/// listing order.
pub open spec fn spec_enumerate(
    listing: Seq<EntryView>,
    input_dir: Seq<char>,
    output_dir: Seq<char>,
) -> Seq<WorkItemView>
    decreases listing.len(),
{
    if listing.len() == 0 {
        Seq::empty()
    } else {
        let earlier = spec_enumerate(listing.drop_last(), input_dir, output_dir);
        if listing.last().is_dir {
            earlier
        } else {
            earlier.push(work_item_for(listing.last(), input_dir, output_dir))
        }
    }
}

/// How many entries of a listing are regular files.
pub open spec fn regular_files(listing: Seq<EntryView>) -> nat
    decreases listing.len(),
{
    if listing.len() == 0 {
        0
    } else {
        regular_files(listing.drop_last()) + if listing.last().is_dir {
            0nat
        } else {
            1nat
        }
    }
}

/// The enumerator yields exactly one work item per regular file.
pub proof fn lemma_enumerate_len(
    listing: Seq<EntryView>,
    input_dir: Seq<char>,
    output_dir: Seq<char>,
)
    ensures
        spec_enumerate(listing, input_dir, output_dir).len() == regular_files(listing),
        regular_files(listing) <= listing.len(),
    decreases listing.len(),
{
    if listing.len() > 0 {
        lemma_enumerate_len(listing.drop_last(), input_dir, output_dir);
    }
}

/// Builds the work item for one regular file of the input directory.
pub fn make_work_item(entry: &ListingEntry, input_dir: &str, output_dir: &str) -> (item: WorkItem)
    ensures
        item@ == work_item_for(entry@, input_dir@, output_dir@),
{
    WorkItem {
        source: FilePath { dir: input_dir.to_owned(), name: entry.name.clone() },
        output_dir: output_dir.to_owned(),
    }
}

/// Lists the work of one run: a work item for every entry of `listing` that
/// is not a directory, in listing order. Directories are passed over.
pub fn enumerate(listing: &Vec<ListingEntry>, input_dir: &str, output_dir: &str) -> (items: Vec<
    WorkItem,
>)
    ensures
        items.deep_view() == spec_enumerate(listing.deep_view(), input_dir@, output_dir@),
{
    let mut items: Vec<WorkItem> = Vec::new();
    let mut i: usize = 0;
    while i < listing.len()
        invariant
            i <= listing.len(),
            items.deep_view() == spec_enumerate(
                listing.deep_view().take(i as int),
                input_dir@,
                output_dir@,
            ),
        decreases listing.len() - i,
    {
        let ghost before = items.deep_view();
        let entry = &listing[i];
        if !entry.is_dir {
            let item = make_work_item(entry, input_dir, output_dir);
            items.push(item);
        }
        proof {
            let prefix = listing.deep_view().take(i as int + 1);
            assert(prefix.drop_last() =~= listing.deep_view().take(i as int));
            assert(prefix.last() == listing[i as int]@);
            if !entry.is_dir {
                assert(items.deep_view() =~= before.push(
                    work_item_for(entry@, input_dir@, output_dir@),
                ));
            }
        }
        i += 1;
    }
    proof {
        assert(listing.deep_view().take(i as int) =~= listing.deep_view());
    }
    items
}

} // verus!

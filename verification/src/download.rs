//! Downloading the parts of a video and putting them together.
use vstd::prelude::*;
use vstd::string::StringExecFns;

use crate::error::DownloadError;
use crate::order::{comes_before, is_stable_order};
use crate::parts::Part;
use crate::text::{contains, lemma_find_from, matches_at, replace};
use crate::text::{replaced, same_chars, to_chars, to_text};
use crate::text_laws::law_first_match_is_replaced;
use crate::text_lemmas::{lemma_absent, lemma_replace_joined, lemma_replace_whole, straddled};
use crate::url::{base_url, law_base_url_is_the_folder};

verus! {

/// Whether a video of the age `age`, in hours, is young enough to try and get its muted parts with
/// their sound.
pub fn may_unmute(age: u64) -> (unmute: bool)
    ensures
        unmute == (age < 24),
{
    age < 24
}

/// How many parts are downloaded at a time, where `threads` are wanted and there are `parts`
/// parts: at least one, and no more than there are parts.
pub open spec fn batch_size(threads: int, parts: int) -> int {
    if threads < 1 {
        1
    } else if threads > parts {
        parts
    } else {
        threads
    }
}

/// The number of batches of `size` parts that can be filled with `parts` parts.
pub open spec fn batch_count(parts: int, size: int) -> int {
    parts / size
}

/// The batch `i` of those with `size` parts.
pub open spec fn batch<T>(parts: Seq<T>, size: int, i: int) -> Seq<T> {
    parts.subrange(i * size, (i + 1) * size)
}

/// Whether `batches` are the full batches of `size` parts, in the order of the parts.
pub open spec fn are_batches<T>(parts: Seq<T>, size: int, batches: Seq<Vec<T>>) -> bool {
    &&& batches.len() == batch_count(parts.len() as int, size)
    &&& forall|i: int| 0 <= i < batches.len() ==> (#[trigger] batches[i])@ == batch(parts, size, i)
}

/// Divides parts into the batches that are downloaded one after the other, where `threads` parts
/// are wanted at a time. Parts that do not fill a batch are left out.
pub fn plan_batches<T>(parts: Vec<T>, threads: u64) -> (plan: Result<Vec<Vec<T>>, DownloadError>)
    ensures
        match plan {
            Ok(batches) => parts@.len() > 0 && are_batches(
                parts@,
                batch_size(threads as int, parts@.len() as int),
                batches@,
            ),
            Err(error) => parts@.len() == 0 && error.message() == "No parts found"@,
        },
        plan is Ok <==> parts@.len() > 0,
        plan matches Ok(batches) ==> forall|i: int|
            0 <= i < batches@.len() ==> (#[trigger] batches@[i])@.len() == if threads == 0 {
                1
            } else if threads > parts@.len() {
                parts@.len()
            } else {
                threads as nat
            },
        plan matches Ok(batches) ==> (threads > parts@.len() ==> batches@.len() == 1 && batches@[0]@
            == parts@),
        plan matches Ok(batches) ==> (threads == 0 ==> {
            &&& batches@.len() == parts@.len()
            &&& forall|i: int|
                0 <= i < parts@.len() ==> (#[trigger] batches@[i])@ == seq![parts@[i]]
        }),
        plan matches Ok(batches) ==> (1 <= threads <= parts@.len() ==> {
            &&& batches@.len() * threads <= parts@.len()
            &&& parts@.len() < (batches@.len() + 1) * threads
            &&& forall|i: int, k: int|
                0 <= i < batches@.len() && 0 <= k < threads ==> #[trigger] batches@[i]@[k]
                    == parts@[i * threads + k]
        }),
{
    let n: usize = parts.len();
    if n < 1 {
        return Err(DownloadError::new("No parts found"));
    }
    let size: usize = if threads < 1 {
        1
    } else if threads > n as u64 {
        n
    } else {
        threads as usize
    };
    let count: usize = n / size;
    let ghost all = parts@;
    let mut rest: Vec<T> = parts;
    let mut batches: Vec<Vec<T>> = Vec::new();
    assert(rest@ == all.skip(0 * size as int));
    assert(count * size <= n) by (nonlinear_arith)
        requires
            count == n / size,
            size > 0,
    ;
    for i in 0..count
        invariant
            n == all.len(),
            1 <= size,
            count * size <= n,
            batches@.len() == i,
            i * size <= n,
            rest@ == all.skip(i * size as int),
            forall|k: int| 0 <= k < i ==> (#[trigger] batches@[k])@ == batch(all, size as int, k),
    {
        assert((i + 1) * size <= count * size && i * size + size == (i + 1) * size)
            by (nonlinear_arith)
            requires
                i < count,
        ;
        let ghost before = batches@;
        let tail = rest.split_off(size);
        assert(rest@ == batch(all, size as int, i as int));
        batches.push(rest);
        rest = tail;
        assert(rest@ == all.skip((i + 1) * size));
        assert forall|k: int| 0 <= k < i + 1 implies (#[trigger] batches@[k])@ == batch(
            all,
            size as int,
            k,
        ) by {
            if k < i {
                assert(batches@[k] == before[k]);
            }
        }
    }
    proof {
        assert forall|i: int| 0 <= i < batches@.len() implies (#[trigger] batches@[i])@.len()
            == size by {
            assert((i + 1) * size <= count * size && i * size + size == (i + 1) * size && 0 <= i
                * size) by (nonlinear_arith)
                requires
                    0 <= i < count,
            ;
        }
        assert forall|i: int, k: int|
            0 <= i < batches@.len() && 0 <= k < size implies #[trigger] batches@[i]@[k] == all[i
            * size + k] by {
            assert((i + 1) * size <= count * size && i * size + size == (i + 1) * size && 0 <= i
                * size) by (nonlinear_arith)
                requires
                    0 <= i < count,
            ;
            assert(batches@[i]@ == batch(all, size as int, i));
        }
        assert(n < (count + 1) * size) by (nonlinear_arith)
            requires
                count == n / size,
                size > 0,
        ;
        if size == n {
            assert(count == 1) by (nonlinear_arith)
                requires
                    count == n / n,
                    n > 0,
            ;
            assert(batches@[0]@ == batch(all, n as int, 0));
            assert(batch(all, n as int, 0) =~= all);
        }
        if size == 1 {
            assert(count == n);
            assert forall|i: int| 0 <= i < n implies (#[trigger] batches@[i])@ == seq![all[i]] by {
                assert(batches@[i]@[0] == all[i * size]);
                assert(batches@[i]@ =~= seq![all[i]]);
            }
        }
    }
    Ok(batches)
}

/// The part `k` is the item `k % size` of the batch `k / size`, unless it is one of the last
/// parts, which do not fill a batch.
pub proof fn law_batches_keep_the_order_of_the_parts<T>(
    parts: Seq<T>,
    size: int,
    batches: Seq<Vec<T>>,
    k: int,
)
    requires
        size >= 1,
        are_batches(parts, size, batches),
        0 <= k < parts.len() - parts.len() as int % size,
    ensures
        0 <= k / size < batches.len(),
        0 <= k % size < batches[k / size]@.len(),
        batches[k / size]@[k % size] == parts[k],
{
    let n = parts.len() as int;
    let i = k / size;
    assert(n == size * (n / size) + n % size && k == size * i + k % size && 0 <= k % size < size
        && 0 <= i < n / size && (i + 1) * size == i * size + size && (i + 1) * size <= size * (n
        / size) && 0 <= i * size) by (nonlinear_arith)
        requires
            size >= 1,
            i == k / size,
            0 <= k < n - n % size,
    ;
    assert(size * i == i * size) by (nonlinear_arith);
    assert(batches[i]@ == batch(parts, size, i));
}

/// Every part is in a batch if the parts can be divided into batches without a remainder.
pub proof fn law_all_parts_are_in_batches<T>(parts: Seq<T>, size: int, batches: Seq<Vec<T>>, k: int)
    requires
        size >= 1,
        are_batches(parts, size, batches),
        parts.len() as int % size == 0,
        0 <= k < parts.len(),
    ensures
        0 <= k / size < batches.len(),
        batches[k / size]@.contains(parts[k]),
{
    law_batches_keep_the_order_of_the_parts(parts, size, batches, k);
}

/// The addresses from which a part is downloaded, in the order in which they are tried. A muted
/// part is first tried under the name that it had before, if that may help.
pub open spec fn addresses(base_url: Seq<char>, part: Seq<char>, try_unmute: bool) -> Seq<
    Seq<char>,
> {
    if try_unmute {
        seq![base_url + replace(part, "-muted"@, ""@), base_url + part]
    } else {
        seq![base_url + part]
    }
}

/// The addresses from which the part `part` is downloaded: each is tried if the one before it
/// failed.
pub fn part_addresses(base_url: &str, part: &str, try_unmute: bool) -> (urls: Vec<String>)
    ensures
        urls@.map_values(|url: String| url@) == addresses(base_url@, part@, try_unmute),
        urls@.len() == if try_unmute {
            2nat
        } else {
            1nat
        },
        urls@.last()@ == base_url@ + part@,
        try_unmute ==> urls@[0]@ == base_url@ + replace(part@, "-muted"@, ""@),
        try_unmute && !contains(part@, "-muted"@) ==> urls@[0]@ == base_url@ + part@,
{
    proof {
        reveal_strlit("-muted");
    }
    let mut urls: Vec<String> = Vec::new();
    if try_unmute {
        let unmuted = to_text(&replaced(&to_chars(part), &to_chars("-muted"), &to_chars("")));
        let mut url = String::from(base_url);
        url.append(unmuted.as_str());
        urls.push(url);
    }
    let mut url = String::from(base_url);
    url.append(part);
    urls.push(url);
    assert(urls@.map_values(|url: String| url@) == addresses(base_url@, part@, try_unmute));
    proof {
        lemma_find_from(part@, "-muted"@, 0);
    }
    urls
}

/// How a part is downloaded.
#[derive(Debug)]
pub struct PartDownload {
    /// The name of the part, and of the file that it is written to.
    pub name: String,
    /// The addresses of the part, each to be tried if the one before it failed.
    pub urls: Vec<String>,
}

impl PartDownload {
    /// The address to try once `failures` addresses have failed. There is none when all have, and
    /// the part is given up.
    pub fn address_after(&self, failures: usize) -> (url: Option<&String>)
        ensures
            match url {
                Some(url) => failures < self.urls@.len() && *url == self.urls@[failures as int],
                None => failures >= self.urls@.len(),
            },
    {
        if failures < self.urls.len() {
            Some(&self.urls[failures])
        } else {
            None
        }
    }
}

/// Whether `download` is how `part` is downloaded.
pub open spec fn is_download(
    part: Part,
    base_url: Seq<char>,
    try_unmute: bool,
    download: PartDownload,
) -> bool {
    &&& download.name@ == part.name@
    &&& download.urls@.map_values(|url: String| url@) == addresses(
        base_url,
        part.name@,
        try_unmute,
    )
}

/// How the parts of a video of the age `age`, in hours, are downloaded.
pub fn part_downloads(base_url: &str, parts: &Vec<Part>, age: u64) -> (downloads: Vec<PartDownload>)
    ensures
        downloads@.len() == parts@.len(),
        forall|i: int|
            0 <= i < parts@.len() ==> is_download(
                parts@[i],
                base_url@,
                age < 24,
                #[trigger] downloads@[i],
            ),
        forall|i: int|
            0 <= i < parts@.len() ==> {
                let download = #[trigger] downloads@[i];
                &&& download.name@ == parts@[i].name@
                &&& download.urls@.last()@ == base_url@ + parts@[i].name@
                &&& age >= 24 ==> download.urls@.len() == 1
                &&& age < 24 ==> download.urls@.len() == 2 && download.urls@[0]@ == base_url@
                    + replace(parts@[i].name@, "-muted"@, ""@)
            },
{
    let try_unmute = may_unmute(age);
    let mut downloads: Vec<PartDownload> = Vec::new();
    for i in 0..parts.len()
        invariant
            try_unmute == (age < 24),
            downloads@.len() == i,
            forall|k: int|
                0 <= k < i ==> is_download(
                    parts@[k],
                    base_url@,
                    try_unmute,
                    #[trigger] downloads@[k],
                ),
            forall|k: int|
                0 <= k < i ==> {
                    let download = #[trigger] downloads@[k];
                    &&& download.name@ == parts@[k].name@
                    &&& download.urls@.last()@ == base_url@ + parts@[k].name@
                    &&& age >= 24 ==> download.urls@.len() == 1
                    &&& age < 24 ==> download.urls@.len() == 2 && download.urls@[0]@ == base_url@
                        + replace(parts@[k].name@, "-muted"@, ""@)
                },
    {
        let name = parts[i].name.clone();
        let urls = part_addresses(base_url, name.as_str(), try_unmute);
        downloads.push(PartDownload { name, urls });
    }
    downloads
}

/// The address under which a part is listed is the last one that is tried, and the only one for a
/// part that may not be unmuted.
pub proof fn law_listed_address_is_tried_last(
    base_url: Seq<char>,
    part: Seq<char>,
    try_unmute: bool,
)
    ensures
        addresses(base_url, part, try_unmute).last() == base_url + part,
        !try_unmute ==> addresses(base_url, part, try_unmute).len() == 1,
{
}

/// A muted part is first tried without the mark in its name.
pub proof fn law_muted_part_is_first_tried_unmuted(base_url: Seq<char>, stem: Seq<char>)
    requires
        !contains(stem, "-muted"@),
    ensures
        addresses(base_url, stem + "-muted.ts"@, true)[0] == base_url + stem + ".ts"@,
{
    reveal_strlit("-muted.ts");
    reveal_strlit("-muted");
    reveal_strlit(".ts");
    reveal_strlit("");
    let mark = "-muted"@;
    let ending = ".ts"@;
    let part = stem + "-muted.ts"@;
    assert(part == stem + (mark + ending));
    assert forall|i: int|
        0 <= i < stem.len() && i + mark.len() > stem.len() implies !matches_at(part, mark, i) by {
        if matches_at(part, mark, i) {
            assert(part.subrange(i, i + mark.len())[stem.len() - i] == '-');
        }
    }
    assert(!straddled(stem, mark + ending, mark));
    assert(!straddled(mark, ending, mark)) by {
        assert forall|i: int|
            0 <= i < mark.len() && i + mark.len() > mark.len() implies !matches_at(
            mark + ending,
            mark,
            i,
        ) by {
            if matches_at(mark + ending, mark, i) {
                assert((mark + ending).subrange(i, i + mark.len())[mark.len() - i] == '.');
            }
        }
    }
    lemma_find_from(stem, mark, 0);
    lemma_replace_joined(stem, mark + ending, mark, ""@);
    lemma_replace_joined(mark, ending, mark, ""@);
    lemma_replace_whole(mark, ""@);
    lemma_absent(ending, mark, ""@);
    assert(replace(part, mark, ""@) == stem + (""@ + ending));
    assert(base_url + (stem + (""@ + ending)) == base_url + stem + ending);
}

/// The parts lie in the folder of the playlist that lists them.
pub proof fn law_parts_lie_beside_their_playlist(
    folder: Seq<char>,
    playlist: Seq<char>,
    part: Seq<char>,
    try_unmute: bool,
)
    requires
        folder.len() > 0,
        !playlist.contains('/'),
    ensures
        addresses(base_url(folder + seq!['/'] + playlist), part, try_unmute).last() == folder
            + seq!['/'] + part,
{
    law_base_url_is_the_folder(folder, playlist);
}

/// The file of a part that was downloaded, or the error where it was not.
pub fn require_part<T>(file: Option<T>) -> (result: Result<T, DownloadError>)
    ensures
        match file {
            Some(file) => result == Ok::<T, DownloadError>(file),
            None => result matches Err(error) && error.message()
                == "Error while downloading all parts"@,
        },
{
    match file {
        Some(file) => Ok(file),
        None => Err(DownloadError::new("Error while downloading all parts")),
    }
}

/// The name of the file that the parts are joined in.
pub const JOINED_FILE: &'static str = "video.ts";

/// The name of the file that the joined parts are converted into.
pub const CONVERTED_FILE: &'static str = "video.mp4";

/// Whether a file in the folder of the parts is taken for a part: all are but the joined file.
pub fn is_part_file(name: &str) -> (is_part: bool)
    ensures
        is_part == (name@ != JOINED_FILE@),
{
    !same_chars(&to_chars(name), &to_chars(JOINED_FILE))
}

/// The name of the finished file of the video `video_id`.
pub fn finished_file(video_id: &str) -> (name: String)
    ensures
        name@ == video_id@ + ".mp4"@,
{
    let mut name = String::from(video_id);
    name.append(".mp4");
    name
}

/// A step on the way from the files of the parts to the finished file.
#[derive(Debug, Clone, Copy, PartialEq, Eq, Structural)]
pub enum AssemblyStep {
    /// Create the file that the parts are joined in.
    CreateJoined,
    /// Add the part with this index to the joined file.
    AppendPart(usize),
    /// Remove the file of the part with this index.
    RemovePart(usize),
    /// Remove what an earlier conversion may have left.
    RemoveConverted,
    /// Convert the joined file.
    Convert,
    /// Move the converted file to where the finished file belongs.
    Publish,
    /// Remove the folder that held the parts.
    RemoveFolder,
}

/// The steps that add parts to the joined file in the order `order`.
pub open spec fn append_steps(order: Seq<usize>) -> Seq<AssemblyStep>
    decreases order.len(),
{
    if order.len() == 0 {
        seq![]
    } else {
        append_steps(order.drop_last()) + seq![
            AssemblyStep::AppendPart(order.last()),
            AssemblyStep::RemovePart(order.last()),
        ]
    }
}

/// The steps that join the parts in the order `order`.
pub open spec fn combining(order: Seq<usize>) -> Seq<AssemblyStep> {
    seq![AssemblyStep::CreateJoined] + append_steps(order)
}

/// The steps that convert the joined file.
pub open spec fn converting() -> Seq<AssemblyStep> {
    seq![AssemblyStep::RemoveConverted, AssemblyStep::Convert]
}

/// The steps from the files of the parts to the finished file.
pub open spec fn assembling(order: Seq<usize>) -> Seq<AssemblyStep> {
    combining(order) + converting() + seq![AssemblyStep::Publish, AssemblyStep::RemoveFolder]
}

/// The steps that join the parts in the order `order`.
pub fn combine_steps(order: &Vec<usize>) -> (steps: Vec<AssemblyStep>)
    ensures
        steps@ == combining(order@),
        steps@.len() == 2 * order@.len() + 1,
        steps@[0] == AssemblyStep::CreateJoined,
        forall|i: int|
            0 <= i < order@.len() ==> steps@[2 * i + 1] == AssemblyStep::AppendPart(
                #[trigger] order@[i],
            ) && steps@[2 * i + 2] == AssemblyStep::RemovePart(order@[i]),
{
    let mut steps: Vec<AssemblyStep> = vec![AssemblyStep::CreateJoined];
    assert(steps@ == combining(order@.take(0)));
    for i in 0..order.len()
        invariant
            steps@ == combining(order@.take(i as int)),
    {
        assert(order@.take(i + 1).drop_last() == order@.take(i as int));
        steps.push(AssemblyStep::AppendPart(order[i]));
        steps.push(AssemblyStep::RemovePart(order[i]));
        assert(steps@ == combining(order@.take(i + 1)));
    }
    assert(order@.take(order@.len() as int) == order@);
    proof {
        assert(order@.len() == 0 ==> append_steps(order@).len() == 0);
        assert forall|i: int| 0 <= i < order@.len() implies steps@[2 * i + 1]
            == AssemblyStep::AppendPart(#[trigger] order@[i]) && steps@[2 * i + 2]
            == AssemblyStep::RemovePart(order@[i]) && steps@.len() == 2 * order@.len() + 1 by {
            lemma_append_steps(order@, i);
        }
        if order@.len() > 0 {
            lemma_append_steps(order@, 0);
        }
    }
    steps
}

/// The steps that convert the joined file.
pub fn convert_steps() -> (steps: Vec<AssemblyStep>)
    ensures
        steps@ == converting(),
        steps@ == seq![AssemblyStep::RemoveConverted, AssemblyStep::Convert],
{
    let steps: Vec<AssemblyStep> = vec![AssemblyStep::RemoveConverted, AssemblyStep::Convert];
    assert(steps@ == converting());
    steps
}

/// The steps from the files of the parts, joined in the order `order`, to the finished file. Each
/// is taken only if the ones before it succeeded.
pub fn assembly_steps(order: &Vec<usize>) -> (steps: Vec<AssemblyStep>)
    ensures
        steps@ == assembling(order@),
        ({
            let n = 2 * order@.len() as int;
            &&& steps@.len() == n + 5
            &&& steps@[0] == AssemblyStep::CreateJoined
            &&& forall|i: int|
                0 <= i < order@.len() ==> steps@[2 * i + 1] == AssemblyStep::AppendPart(
                    #[trigger] order@[i],
                ) && steps@[2 * i + 2] == AssemblyStep::RemovePart(order@[i])
            &&& steps@[n + 1] == AssemblyStep::RemoveConverted
            &&& steps@[n + 2] == AssemblyStep::Convert
            &&& steps@[n + 3] == AssemblyStep::Publish
            &&& steps@[n + 4] == AssemblyStep::RemoveFolder
        }),
{
    let mut steps = combine_steps(order);
    steps.append(&mut convert_steps());
    steps.push(AssemblyStep::Publish);
    steps.push(AssemblyStep::RemoveFolder);
    assert(steps@ == assembling(order@));
    steps
}

/// The steps that add parts come in pairs, and in the order of the parts.
proof fn lemma_append_steps(order: Seq<usize>, i: int)
    requires
        0 <= i < order.len(),
    ensures
        append_steps(order).len() == 2 * order.len(),
        append_steps(order)[2 * i] == AssemblyStep::AppendPart(order[i]),
        append_steps(order)[2 * i + 1] == AssemblyStep::RemovePart(order[i]),
    decreases order.len(),
{
    let head = order.drop_last();
    if i < head.len() {
        lemma_append_steps(head, i);
    } else if head.len() > 0 {
        lemma_append_steps(head, 0);
    } else {
        assert(append_steps(head).len() == 0);
    }
}

/// The parts are added in the given order, and each is removed right after it was added.
pub proof fn law_parts_are_added_in_order_and_removed_afterwards(order: Seq<usize>, i: int)
    requires
        0 <= i < order.len(),
    ensures
        assembling(order)[0] == AssemblyStep::CreateJoined,
        assembling(order)[2 * i + 1] == AssemblyStep::AppendPart(order[i]),
        assembling(order)[2 * i + 2] == AssemblyStep::RemovePart(order[i]),
{
    lemma_append_steps(order, i);
}

/// Of two parts, the one with the smaller number is added first, and of two with the same number
/// the one that stood first.
pub proof fn law_parts_are_added_by_their_numbers(keys: Seq<int>, order: Seq<usize>, i: int, j: int)
    requires
        is_stable_order(keys, order),
        0 <= i < j < order.len(),
    ensures
        assembling(order)[2 * i + 1] matches AssemblyStep::AppendPart(a)
            && assembling(order)[2 * j + 1] matches AssemblyStep::AppendPart(b) && comes_before(
            keys,
            a as int,
            b as int,
        ),
{
    lemma_append_steps(order, i);
    lemma_append_steps(order, j);
}

/// Every part is added.
pub proof fn law_every_part_is_added(keys: Seq<int>, order: Seq<usize>, part: usize)
    requires
        is_stable_order(keys, order),
        part < keys.len(),
    ensures
        assembling(order).contains(AssemblyStep::AppendPart(part)),
{
    assert(order.contains(part));
    let i = choose|i: int| 0 <= i < order.len() && order[i] == part;
    lemma_append_steps(order, i);
    assert(assembling(order)[2 * i + 1] == AssemblyStep::AppendPart(part));
}

/// The joined file is converted after all parts were added, then it is published, and the folder
/// is removed last.
pub proof fn law_folder_is_removed_last(order: Seq<usize>)
    ensures
        ({
            let steps = assembling(order);
            let n = 2 * order.len() as int;
            &&& steps.len() == n + 5
            &&& steps[n + 1] == AssemblyStep::RemoveConverted
            &&& steps[n + 2] == AssemblyStep::Convert
            &&& steps[n + 3] == AssemblyStep::Publish
            &&& steps[n + 4] == AssemblyStep::RemoveFolder
        }),
{
    if order.len() > 0 {
        lemma_append_steps(order, 0);
    }
}

/// A part that is not muted is tried under its listed address only.
pub proof fn law_part_that_is_not_muted_has_one_address(
    base_url: Seq<char>,
    part: Seq<char>,
    try_unmute: bool,
    i: int,
)
    requires
        !contains(part, "-muted"@),
        0 <= i < addresses(base_url, part, try_unmute).len(),
    ensures
        addresses(base_url, part, try_unmute)[i] == base_url + part,
{
    reveal_strlit("-muted");
    lemma_find_from(part, "-muted"@, 0);
}

/// All addresses of a part lie in one folder, and depend on nothing but the name of the part there.
pub proof fn law_addresses_lie_in_the_folder(
    base_url: Seq<char>,
    part: Seq<char>,
    try_unmute: bool,
    i: int,
)
    requires
        0 <= i < addresses(base_url, part, try_unmute).len(),
    ensures
        addresses(base_url, part, try_unmute).len() == if try_unmute {
            2nat
        } else {
            1nat
        },
        addresses(base_url, part, try_unmute)[i] == base_url + addresses(
            seq![],
            part,
            try_unmute,
        )[i],
{
    assert(Seq::<char>::empty() + part =~= part);
    let unmuted = replace(part, "-muted"@, ""@);
    assert(Seq::<char>::empty() + unmuted =~= unmuted);
}

/// The first mark in the name of a part goes, and so do those behind it, before the part is tried
/// for the first time.
pub proof fn law_marks_go_one_after_the_other(
    base_url: Seq<char>,
    before: Seq<char>,
    behind: Seq<char>,
)
    requires
        forall|j: int|
            0 <= j < before.len() ==> !#[trigger] matches_at(
                before + "-muted"@ + behind,
                "-muted"@,
                j,
            ),
    ensures
        addresses(base_url, before + "-muted"@ + behind, true)[0] == addresses(
            base_url + before,
            behind,
            true,
        )[0],
{
    reveal_strlit("-muted");
    reveal_strlit("");
    law_first_match_is_replaced(before, "-muted"@, behind, ""@);
    let rest = replace(behind, "-muted"@, ""@);
    assert(base_url + (before + ""@ + rest) =~= base_url + before + rest);
}

/// What is downloaded of a part is written under its name, and is tried under its addresses in
/// order.
pub proof fn law_download_is_that_of_its_part(
    part: Part,
    base_url: Seq<char>,
    try_unmute: bool,
    download: PartDownload,
    i: int,
)
    requires
        is_download(part, base_url, try_unmute, download),
        0 <= i < download.urls@.len(),
    ensures
        download.name@ == part.name@,
        download.urls@.len() == addresses(base_url, part.name@, try_unmute).len(),
        download.urls@[i]@ == addresses(base_url, part.name@, try_unmute)[i],
{
    let views = download.urls@.map_values(|url: String| url@);
    assert(views[i] == download.urls@[i]@);
}

/// Full batches of parts hold as many parts as they should, and as many batches are made as can be
/// filled: the parts that are left do not fill another one.
pub proof fn law_batches_are_full<T>(parts: Seq<T>, size: int, batches: Seq<Vec<T>>, i: int)
    requires
        size >= 1,
        are_batches(parts, size, batches),
        0 <= i < batches.len(),
    ensures
        batches[i]@.len() == size,
        batches.len() * size <= parts.len() < (batches.len() + 1) * size,
{
    let n = parts.len() as int;
    let count = batches.len() as int;
    assert(count * size <= n && n < (count + 1) * size && (i + 1) * size <= count * size && 0 <= i
        * size && (i + 1) * size == i * size + size) by (nonlinear_arith)
        requires
            size >= 1,
            count == n / size,
            0 <= i < count,
    ;
    assert(batches[i]@ == batch(parts, size, i));
}

/// As many parts are downloaded at a time as are wanted, but at least one and no more than there
/// are.
pub proof fn law_batch_size_is_the_wanted_number(threads: int, parts: int)
    requires
        parts >= 1,
        threads >= 0,
    ensures
        1 <= batch_size(threads, parts) <= parts,
        1 <= threads <= parts ==> batch_size(threads, parts) == threads,
        threads >= parts ==> batch_size(threads, parts) == parts,
        threads == 0 ==> batch_size(threads, parts) == 1,
{
}

/// Where the wanted number divides the number of parts, every part is downloaded, and with as many
/// others at a time as are wanted.
pub proof fn law_wanted_number_that_divides_the_parts_leaves_none_out<T>(
    parts: Seq<T>,
    threads: int,
    batches: Seq<Vec<T>>,
    k: int,
)
    requires
        1 <= threads <= parts.len(),
        parts.len() as int % threads == 0,
        are_batches(parts, batch_size(threads, parts.len() as int), batches),
        0 <= k < parts.len(),
    ensures
        0 <= k / threads < batches.len(),
        batches[k / threads]@.len() == threads,
        batches[k / threads]@[k % threads] == parts[k],
{
    law_batch_size_is_the_wanted_number(threads, parts.len() as int);
    law_batches_keep_the_order_of_the_parts(parts, threads, batches, k);
    law_batches_are_full(parts, threads, batches, k / threads);
}

} // verus!

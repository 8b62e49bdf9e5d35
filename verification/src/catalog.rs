//! The catalog of a batch: which of the files found under the input root are
//! converted, as what, and where each result goes.
//!
//! A file is converted if its extension, read without regard to ASCII letter
//! case, is one of the source extensions. Its output path mirrors its place
//! under the input root below the output root, with the target extension of
//! its kind. Building the catalog touches nothing on disk.
use crate::path::{
    extension, extension_of, lemma_stem_and_extension, replace_extension, stem, with_extension,
    AssetPath,
};
use crate::text::{ascii_lower, eq_ignoring_ascii_case, same_ignoring_ascii_case};
use vstd::prelude::*;

verus! {

/// What a file is converted as.
#[derive(Clone, Copy, Debug, PartialEq, Eq, Structural)]
pub enum AssetKind {
    Video,
    Image,
}

/// One conversion: the file to read, the file to write, and the kind of
/// both.
#[derive(Clone, Debug, PartialEq, Eq)]
pub struct ConversionJob {
    pub input_path: AssetPath,
    pub output_path: AssetPath,
    pub kind: AssetKind,
}

/// A job as contracts speak of it.
pub struct JobView {
    pub input_path: Seq<Seq<char>>,
    pub output_path: Seq<Seq<char>>,
    pub kind: AssetKind,
}

impl View for ConversionJob {
    type V = JobView;

    open spec fn view(&self) -> JobView {
        JobView {
            input_path: self.input_path@,
            output_path: self.output_path@,
            kind: self.kind,
        }
    }
}

impl ConversionJob {
    /// A copy of this job.
    pub fn duplicate(&self) -> (copy: ConversionJob)
        ensures
            copy@ == self@,
    {
        ConversionJob {
            input_path: self.input_path.duplicate(),
            output_path: self.output_path.duplicate(),
            kind: self.kind,
        }
    }
}

/// Why no catalog could be built.
#[derive(Clone, Copy, Debug, PartialEq, Eq, Structural)]
pub enum DiscoveryError {
    /// The input root could not be walked.
    WalkFailed,
    /// The file at this position of the list is to be converted but does not
    /// lie under the input root, so it has no place under the output root.
    OutsideInputRoot { file: usize },
}

/// The extension of the files that are converted as `kind`, in lower case.
pub open spec fn source_extension(kind: AssetKind) -> Seq<char> {
    match kind {
        AssetKind::Video => seq!['m', 'p', '4'],
        AssetKind::Image => seq!['p', 'n', 'g'],
    }
}

/// The extension of the files that a conversion as `kind` writes.
pub open spec fn target_extension(kind: AssetKind) -> Seq<char> {
    match kind {
        AssetKind::Video => seq!['w', 'e', 'b', 'm'],
        AssetKind::Image => seq!['w', 'e', 'b', 'p'],
    }
}

/// The kind that an extension stands for, if any.
pub open spec fn kind_of_extension(ext: Seq<char>) -> Option<AssetKind> {
    if eq_ignoring_ascii_case(ext, source_extension(AssetKind::Video)) {
        Some(AssetKind::Video)
    } else if eq_ignoring_ascii_case(ext, source_extension(AssetKind::Image)) {
        Some(AssetKind::Image)
    } else {
        None
    }
}

/// The kind of a file, read off the extension of its name; `None` for a
/// file that is not converted.
pub open spec fn kind_of(file: Seq<Seq<char>>) -> Option<AssetKind> {
    if file.len() == 0 {
        None
    } else {
        match extension(file.last()) {
            Some(ext) => kind_of_extension(ext),
            None => None,
        }
    }
}

/// Where the result of converting a file goes: below `output_root`, at the
/// place that the file has under the input root (`relative`), under its own
/// name with the target extension of `kind`.
pub open spec fn output_path(
    output_root: Seq<Seq<char>>,
    relative: Seq<Seq<char>>,
    kind: AssetKind,
) -> Seq<Seq<char>> {
    if relative.len() == 0 {
        output_root
    } else {
        (output_root + relative.drop_last()).push(
            replace_extension(relative.last(), target_extension(kind)),
        )
    }
}

/// A file that is to be converted but does not lie under the input root.
pub open spec fn escapes(input_root: Seq<Seq<char>>, file: Seq<Seq<char>>) -> bool {
    kind_of(file) is Some && !input_root.is_prefix_of(file)
}

/// The job for one file, if the file is converted.
pub open spec fn job_of(
    input_root: Seq<Seq<char>>,
    output_root: Seq<Seq<char>>,
    file: Seq<Seq<char>>,
) -> Option<JobView> {
    match kind_of(file) {
        Some(kind) => if input_root.is_prefix_of(file) {
            Some(
                JobView {
                    input_path: file,
                    output_path: output_path(output_root, file.skip(input_root.len() as int), kind),
                    kind,
                },
            )
        } else {
            None
        },
        None => None,
    }
}

/// The jobs for a list of files: the job of each file that is converted, in
/// the order of the list.
pub open spec fn jobs_of(
    input_root: Seq<Seq<char>>,
    output_root: Seq<Seq<char>>,
    files: Seq<Seq<Seq<char>>>,
) -> Seq<JobView>
    decreases files.len(),
{
    if files.len() == 0 {
        Seq::empty()
    } else {
        let front = jobs_of(input_root, output_root, files.drop_last());
        match job_of(input_root, output_root, files.last()) {
            Some(job) => front.push(job),
            None => front,
        }
    }
}

/// How many of `files` are converted.
pub open spec fn count_recognized(files: Seq<Seq<Seq<char>>>) -> nat
    decreases files.len(),
{
    if files.len() == 0 {
        0
    } else {
        count_recognized(files.drop_last()) + if kind_of(files.last()) is Some {
            1nat
        } else {
            0nat
        }
    }
}

/// The place in the catalog of the job for the file at position `i`: the
/// number of converted files before it.
pub open spec fn job_position(files: Seq<Seq<Seq<char>>>, i: int) -> nat {
    count_recognized(files.take(i))
}

/// The position in `files` of the file that the job at place `j` of the
/// catalog converts.
pub open spec fn source_position(files: Seq<Seq<Seq<char>>>, j: int) -> int
    decreases files.len(),
{
    if files.len() == 0 {
        -1
    } else if kind_of(files.last()) is Some && count_recognized(files.drop_last()) == j {
        files.len() - 1
    } else {
        source_position(files.drop_last(), j)
    }
}

/// The paths of a list of files.
pub open spec fn paths_of(files: Seq<AssetPath>) -> Seq<Seq<Seq<char>>> {
    Seq::new(files.len(), |i: int| files[i]@)
}

/// The jobs of a catalog as contracts speak of them.
pub open spec fn views_of(jobs: Seq<ConversionJob>) -> Seq<JobView> {
    Seq::new(jobs.len(), |i: int| jobs[i]@)
}

/// Two different files of one kind in the same directory whose names are
/// the same up to the spelling of the extension, such as `clip.mp4` and
/// `clip.MP4`.
pub open spec fn differ_only_in_extension_case(
    first: Seq<Seq<char>>,
    second: Seq<Seq<char>>,
) -> bool {
    &&& first != second
    &&& first.len() > 0
    &&& first.len() == second.len()
    &&& first.drop_last() == second.drop_last()
    &&& stem(first.last()) == stem(second.last())
    &&& kind_of(first) is Some
    &&& kind_of(first) == kind_of(second)
}

/// Files that differ only in the spelling of their extension are what the
/// name says: each name is the common stem, a dot and an extension, and the two
/// extensions are different spellings of the source extension of one kind.
pub proof fn lemma_differ_only_in_extension_case(first: Seq<Seq<char>>, second: Seq<Seq<char>>)
    requires
        differ_only_in_extension_case(first, second),
    ensures
        extension(first.last()) matches Some(ext1) && extension(second.last()) matches Some(ext2)
            && {
            &&& first.last() == stem(first.last()) + seq!['.'] + ext1
            &&& second.last() == stem(first.last()) + seq!['.'] + ext2
            &&& ext1 != ext2
            &&& eq_ignoring_ascii_case(ext1, ext2)
        },
{
    let ext1 = extension(first.last())->0;
    let ext2 = extension(second.last())->0;
    lemma_stem_and_extension(first.last());
    lemma_stem_and_extension(second.last());
    if ext1 == ext2 {
        assert(first =~= first.drop_last().push(first.last()));
        assert(second =~= second.drop_last().push(second.last()));
    }
    let source = source_extension(kind_of(first)->0);
    assert(eq_ignoring_ascii_case(ext1, source));
    assert(eq_ignoring_ascii_case(ext2, source));
    assert forall|i: int| 0 <= i < ext1.len() implies ascii_lower(#[trigger] ext1[i])
        == ascii_lower(ext2[i]) by {
        assert(ascii_lower(ext1[i]) == ascii_lower(source[i]));
        assert(ascii_lower(ext2[i]) == ascii_lower(source[i]));
    }
}

/// Every file that is converted has exactly one job, and every job converts
/// exactly one file: the places of the catalog and the positions of the
/// converted files correspond one to one, in the same order, and a file that is
/// not converted has no job.
pub proof fn lemma_one_job_per_recognized_file(
    input_root: Seq<Seq<char>>,
    output_root: Seq<Seq<char>>,
    files: Seq<Seq<Seq<char>>>,
)
    requires
        forall|i: int| 0 <= i < files.len() ==> !escapes(input_root, #[trigger] files[i]),
    ensures
        jobs_of(input_root, output_root, files).len() == count_recognized(files),
        count_recognized(files) <= files.len(),
        forall|i: int|
            #![trigger files[i]]
            0 <= i < files.len() && kind_of(files[i]) is Some ==> {
                let j = job_position(files, i) as int;
                &&& j < count_recognized(files)
                &&& Some(jobs_of(input_root, output_root, files)[j]) == job_of(
                    input_root,
                    output_root,
                    files[i],
                )
                &&& source_position(files, j) == i
            },
        forall|j: int|
            #![trigger source_position(files, j)]
            0 <= j < count_recognized(files) ==> {
                let i = source_position(files, j);
                &&& 0 <= i < files.len()
                &&& kind_of(files[i]) is Some
                &&& job_position(files, i) == j
            },
    decreases files.len(),
{
    if files.len() > 0 {
        let front = files.drop_last();
        let n = front.len() as int;
        assert forall|i: int| 0 <= i < front.len() implies !escapes(
            input_root,
            #[trigger] front[i],
        ) by {
            assert(front[i] == files[i]);
        }
        lemma_one_job_per_recognized_file(input_root, output_root, front);
        assert(files.take(n) == front);
        assert(!escapes(input_root, files[n]));
        assert forall|i: int|
            #![trigger files[i]]
            0 <= i < files.len() && kind_of(files[i]) is Some implies {
            let j = job_position(files, i) as int;
            &&& j < count_recognized(files)
            &&& Some(jobs_of(input_root, output_root, files)[j]) == job_of(
                input_root,
                output_root,
                files[i],
            )
            &&& source_position(files, j) == i
        } by {
            if i < n {
                assert(files.take(i) == front.take(i));
                assert(front[i] == files[i]);
            }
        }
        assert forall|j: int|
            #![trigger source_position(files, j)]
            0 <= j < count_recognized(files) implies {
            let i = source_position(files, j);
            &&& 0 <= i < files.len()
            &&& kind_of(files[i]) is Some
            &&& job_position(files, i) == j
        } by {
            let i = source_position(files, j);
            if kind_of(files.last()) is Some && count_recognized(front) == j {
            } else {
                assert(j < count_recognized(front));
                assert(i == source_position(front, j));
                assert(files.take(i) == front.take(i));
                assert(front[i] == files[i]);
            }
        }
    }
}

/// Two converted files under the input root get the same output path only
/// if they are the same file, or differ in nothing but the spelling of their
/// extension.
pub proof fn lemma_output_path_injective(
    input_root: Seq<Seq<char>>,
    output_root: Seq<Seq<char>>,
    first: Seq<Seq<char>>,
    second: Seq<Seq<char>>,
)
    requires
        job_of(input_root, output_root, first) is Some,
        job_of(input_root, output_root, second) is Some,
    ensures
        job_of(input_root, output_root, first)->0.output_path == job_of(
            input_root,
            output_root,
            second,
        )->0.output_path <==> first == second || differ_only_in_extension_case(first, second),
{
    let skipped = input_root.len() as int;
    let rel1 = first.skip(skipped);
    let rel2 = second.skip(skipped);
    let kind1 = kind_of(first)->0;
    let kind2 = kind_of(second)->0;
    let out1 = output_path(output_root, rel1, kind1);
    let out2 = output_path(output_root, rel2, kind2);
    assert(first =~= input_root + rel1);
    assert(second =~= input_root + rel2);
    if out1 == out2 {
        if rel1.len() == 0 || rel2.len() == 0 {
            assert(out1.len() == output_root.len() + rel1.len());
            assert(out2.len() == output_root.len() + rel2.len());
            assert(rel1 =~= rel2);
        } else {
            let name1 = replace_extension(rel1.last(), target_extension(kind1));
            let name2 = replace_extension(rel2.last(), target_extension(kind2));
            assert(out1.last() == name1);
            assert(out2.last() == name2);
            assert(out1.drop_last() =~= output_root + rel1.drop_last());
            assert(out2.drop_last() =~= output_root + rel2.drop_last());
            assert(rel1.drop_last() =~= rel2.drop_last()) by {
                assert(rel1.len() == rel2.len());
                assert forall|k: int| 0 <= k < rel1.len() - 1 implies rel1.drop_last()[k]
                    == rel2.drop_last()[k] by {
                    assert(out1.drop_last()[output_root.len() + k] == rel1.drop_last()[k]);
                    assert(out2.drop_last()[output_root.len() + k] == rel2.drop_last()[k]);
                }
            }
            let stem1 = stem(rel1.last());
            let stem2 = stem(rel2.last());
            assert(name1.len() == stem1.len() + 5);
            assert(name2.len() == stem2.len() + 5);
            assert(name1[stem1.len() as int + 4] == target_extension(kind1)[3]);
            assert(name2[stem2.len() as int + 4] == target_extension(kind2)[3]);
            assert(kind1 == kind2);
            assert(stem1 =~= stem2) by {
                assert forall|k: int| 0 <= k < stem1.len() implies stem1[k] == stem2[k] by {
                    assert(name1[k] == stem1[k]);
                    assert(name2[k] == stem2[k]);
                }
            }
            assert(first.last() == rel1.last());
            assert(second.last() == rel2.last());
            assert(first.drop_last() =~= input_root + rel1.drop_last());
            assert(second.drop_last() =~= input_root + rel2.drop_last());
        }
    }
    if differ_only_in_extension_case(first, second) {
        if rel1.len() == 0 {
            assert(rel2.len() == 0);
            assert(first =~= second);
        }
        assert(first.last() == rel1.last());
        assert(second.last() == rel2.last());
        assert(rel1.drop_last() =~= first.drop_last().skip(skipped));
        assert(rel2.drop_last() =~= second.drop_last().skip(skipped));
    }
}

/// The output paths of a catalog are all different, provided that the files
/// are, and that no two of them differ only in the spelling of their extension.
pub proof fn lemma_catalog_outputs_distinct(
    input_root: Seq<Seq<char>>,
    output_root: Seq<Seq<char>>,
    files: Seq<Seq<Seq<char>>>,
)
    requires
        forall|i: int| 0 <= i < files.len() ==> !escapes(input_root, #[trigger] files[i]),
        forall|i: int, k: int|
            #![trigger files[i], files[k]]
            0 <= i < k < files.len() ==> files[i] != files[k] && !differ_only_in_extension_case(
                files[i],
                files[k],
            ),
    ensures
        ({
            let jobs = jobs_of(input_root, output_root, files);
            forall|a: int, b: int|
                #![trigger jobs[a], jobs[b]]
                0 <= a < b < jobs.len() ==> jobs[a].output_path != jobs[b].output_path
        }),
{
    let jobs = jobs_of(input_root, output_root, files);
    lemma_one_job_per_recognized_file(input_root, output_root, files);
    assert forall|a: int, b: int|
        #![trigger jobs[a], jobs[b]]
        0 <= a < b < jobs.len() implies jobs[a].output_path != jobs[b].output_path by {
        let i = source_position(files, a);
        let k = source_position(files, b);
        assert(job_position(files, i) == a);
        assert(job_position(files, k) == b);
        assert(!escapes(input_root, files[i]));
        assert(!escapes(input_root, files[k]));
        assert(Some(jobs[a]) == job_of(input_root, output_root, files[i]));
        assert(Some(jobs[b]) == job_of(input_root, output_root, files[k]));
        assert(i != k);
        lemma_output_path_injective(input_root, output_root, files[i], files[k]);
        if i < k {
            assert(files[i] != files[k] && !differ_only_in_extension_case(files[i], files[k]));
        } else {
            assert(files[k] != files[i] && !differ_only_in_extension_case(files[k], files[i]));
            assert(!differ_only_in_extension_case(files[i], files[k]));
        }
    }
}

/// The target extension of `kind`.
pub fn target_extension_of(kind: AssetKind) -> (ext: &'static str)
    ensures
        ext@ == target_extension(kind),
{
    proof {
        reveal_strlit("webm");
        reveal_strlit("webp");
    }
    match kind {
        AssetKind::Video => {
            assert("webm"@ =~= target_extension(AssetKind::Video));
            "webm"
        },
        AssetKind::Image => {
            assert("webp"@ =~= target_extension(AssetKind::Image));
            "webp"
        },
    }
}

/// Decides what an extension stands for.
pub fn classify_extension(ext: &str) -> (kind: Option<AssetKind>)
    ensures
        kind == kind_of_extension(ext@),
{
    proof {
        reveal_strlit("mp4");
        reveal_strlit("png");
        assert("mp4"@ =~= source_extension(AssetKind::Video));
        assert("png"@ =~= source_extension(AssetKind::Image));
    }
    if same_ignoring_ascii_case(ext, "mp4") {
        Some(AssetKind::Video)
    } else if same_ignoring_ascii_case(ext, "png") {
        Some(AssetKind::Image)
    } else {
        None
    }
}

/// Decides whether a file is converted, and as what.
pub fn classify(file: &AssetPath) -> (kind: Option<AssetKind>)
    ensures
        kind == kind_of(file@),
{
    match file.file_name() {
        Some(name) => match extension_of(name.as_str()) {
            Some(ext) => classify_extension(ext.as_str()),
            None => None,
        },
        None => None,
    }
}

/// Computes [`output_path`].
pub fn output_path_for(
    output_dir: &AssetPath,
    relative: &AssetPath,
    kind: AssetKind,
) -> (output: AssetPath)
    ensures
        output@ == output_path(output_dir@, relative@, kind),
{
    let n = relative.len();
    if n == 0 {
        return output_dir.duplicate();
    }
    let mut output = output_dir.join(&relative.slice(0, n - 1));
    let name = with_extension(relative.components[n - 1].as_str(), target_extension_of(kind));
    let ghost joined = output@;
    assert(relative@.subrange(0, n - 1) == relative@.drop_last());
    output.components.push(name);
    assert(output@ =~= joined.push(name@));
    output
}

/// Builds the catalog for the files found under `input_dir`: one job for
/// each file that is converted, in the order of `files`, and none for any
/// other. Fails at the first file that is to be converted but does not lie
/// under `input_dir`.
pub fn discover_assets(
    input_dir: &AssetPath,
    output_dir: &AssetPath,
    files: &Vec<AssetPath>,
) -> (catalog: Result<Vec<ConversionJob>, DiscoveryError>)
    ensures
        match catalog {
            Ok(jobs) => {
                &&& forall|i: int|
                    0 <= i < files@.len() ==> !escapes(input_dir@, #[trigger] files@[i]@)
                &&& views_of(jobs@) == jobs_of(input_dir@, output_dir@, paths_of(files@))
            },
            Err(DiscoveryError::OutsideInputRoot { file }) => {
                &&& file < files@.len()
                &&& escapes(input_dir@, files@[file as int]@)
                &&& forall|i: int| 0 <= i < file ==> !escapes(input_dir@, #[trigger] files@[i]@)
            },
            Err(DiscoveryError::WalkFailed) => false,
        },
{
    let mut jobs: Vec<ConversionJob> = Vec::new();
    let mut i: usize = 0;
    assert(paths_of(files@).take(0) =~= Seq::<Seq<Seq<char>>>::empty());
    assert(views_of(jobs@) =~= Seq::<JobView>::empty());
    while i < files.len()
        invariant
            i <= files@.len(),
            forall|k: int| 0 <= k < i ==> !escapes(input_dir@, #[trigger] files@[k]@),
            views_of(jobs@) == jobs_of(input_dir@, output_dir@, paths_of(files@).take(i as int)),
        decreases files.len() - i,
    {
        let file = &files[i];
        proof {
            let upto = paths_of(files@).take(i + 1);
            assert(upto.drop_last() == paths_of(files@).take(i as int));
            assert(upto.last() == file@);
        }
        match classify(file) {
            Some(kind) => match file.strip_prefix(input_dir) {
                Some(relative) => {
                    let output_path = output_path_for(output_dir, &relative, kind);
                    let job = ConversionJob { input_path: file.duplicate(), output_path, kind };
                    let ghost before = views_of(jobs@);
                    jobs.push(job);
                    assert(views_of(jobs@) =~= before.push(job@));
                },
                None => {
                    return Err(DiscoveryError::OutsideInputRoot { file: i });
                },
            },
            None => {},
        }
        i += 1;
    }
    assert(paths_of(files@).take(files@.len() as int) == paths_of(files@));
    Ok(jobs)
}

} // verus!

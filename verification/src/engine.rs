//! The concatenation engine: walks a directory snapshot, selects files
//! through the pattern filter, and assembles the output bytes — an optional
//! tree-text header, then, per accepted file, an optional provenance line,
//! the file's bytes, and a newline. An entry resolving to the output's own
//! canonical path is skipped, so the output never reads itself back.

use vstd::prelude::*;
use vstd::utf8::encode_utf8;

use crate::matcher::FileFilter;
use crate::matcher::FilterError;
use crate::matcher::all_patterns_ok;
use crate::matcher::effective_glob;
use crate::matcher::first_bad_pattern;
use crate::matcher::glob_error_text;
use crate::matcher::patterns_compile;
use crate::matcher::spec_filter_of;
use crate::matcher::spec_should_process;
use crate::walker::FileEntry;
use crate::walker::FileEntryView;
use crate::walker::FsNode;
use crate::walker::FsNodeView;
use crate::walker::entries_view;
use crate::walker::file_at_depth;
use crate::walker::lemma_walk_depth_bounded;
use crate::walker::lemma_walk_depth_complete;
use crate::walker::spec_visit_dir;
use crate::walker::walk;

verus! {

/// The run context of one concatenation: the pattern list, the traversal
/// ceiling, the output toggles, and the canonical path of the output file,
/// resolved once before the walk.
pub struct Config {
    pub patterns: Vec<String>,
    pub max_depth: usize,
    pub write_filenames: bool,
    pub write_tree: bool,
    pub comment_style: String,
    pub buffer_size: usize,
    pub output_canonical: String,
}

/// The mathematical content of a `Config`.
pub struct ConfigView {
    pub patterns: Seq<Seq<char>>,
    pub max_depth: nat,
    pub write_filenames: bool,
    pub write_tree: bool,
    pub comment_style: Seq<char>,
    pub buffer_size: nat,
    pub output_canonical: Seq<char>,
}

impl View for Config {
    type V = ConfigView;

    open spec fn view(&self) -> ConfigView {
        ConfigView {
            patterns: self.patterns.deep_view(),
            max_depth: self.max_depth as nat,
            write_filenames: self.write_filenames,
            write_tree: self.write_tree,
            comment_style: self.comment_style@,
            buffer_size: self.buffer_size as nat,
            output_canonical: self.output_canonical@,
        }
    }
}

/// An error aborting the run.
#[derive(Debug)]
pub enum EngineError {
    /// The output resource could not be created.
    OutputCreate(String),
    /// The output path's canonical form could not be resolved.
    PathResolve(String),
    /// A directory listing, file read, or write failed.
    Io(String),
    /// The pattern list did not compile.
    Filter(FilterError),
}

/// The provenance line written before an accepted file's bytes:
/// the comment prefix, a space, the file's path, and a newline.
pub open spec fn spec_provenance_line(c: ConfigView, path: Seq<char>) -> Seq<u8> {
    encode_utf8(c.comment_style) + seq![32u8] + encode_utf8(path) + seq![10u8]
}

/// What one visited file contributes to the output: nothing when it is the
/// output file itself or the filter rejects its path; otherwise an optional
/// provenance line, its bytes, and a trailing newline.
pub open spec fn spec_file_emission(c: ConfigView, f: FileEntryView) -> Seq<u8> {
    if f.canonical == c.output_canonical {
        Seq::empty()
    } else if !spec_should_process(spec_filter_of(c.patterns), f.path) {
        Seq::empty()
    } else {
        (if c.write_filenames {
            spec_provenance_line(c, f.path)
        } else {
            Seq::empty()
        }) + f.bytes + seq![10u8]
    }
}

/// The emissions of a sequence of visited files, concatenated in order.
pub open spec fn spec_emissions(c: ConfigView, files: Seq<FileEntryView>) -> Seq<u8>
    decreases files.len(),
{
    if files.len() == 0 {
        Seq::empty()
    } else {
        spec_file_emission(c, files[0]) + spec_emissions(c, files.drop_first())
    }
}

/// The leading tree block: the rendered tree text and a newline, when the
/// tree toggle is set.
pub open spec fn spec_header(c: ConfigView, tree_text: Seq<char>) -> Seq<u8> {
    if c.write_tree {
        encode_utf8(tree_text) + seq![10u8]
    } else {
        Seq::empty()
    }
}

/// The whole output: the optional tree block, then the emissions of the
/// files the depth-bounded walk visits, in visitation order.
pub open spec fn spec_output(c: ConfigView, tree_text: Seq<char>, root: FsNodeView) -> Seq<u8> {
    spec_header(c, tree_text) + spec_emissions(c, spec_visit_dir(root, 0, c.max_depth))
}

/// Emitting one more file appends exactly its contribution.
pub proof fn lemma_emissions_push(c: ConfigView, files: Seq<FileEntryView>, x: FileEntryView)
    ensures
        spec_emissions(c, files.push(x)) == spec_emissions(c, files) + spec_file_emission(c, x),
    decreases files.len(),
{
    assert(files.push(x)[0] == if files.len() == 0 {
        x
    } else {
        files[0]
    });
    if files.len() == 0 {
        assert(files.push(x).drop_first() =~= Seq::<FileEntryView>::empty());
        assert(spec_emissions(c, Seq::<FileEntryView>::empty()) == Seq::<u8>::empty());
        assert(spec_emissions(c, files.push(x)) =~= spec_file_emission(c, x));
        assert(spec_emissions(c, files) + spec_file_emission(c, x) =~= spec_file_emission(c, x));
    } else {
        assert(files.push(x).drop_first() =~= files.drop_first().push(x));
        lemma_emissions_push(c, files.drop_first(), x);
        assert(spec_file_emission(c, files[0]) + (spec_emissions(c, files.drop_first())
            + spec_file_emission(c, x)) =~= (spec_file_emission(c, files[0]) + spec_emissions(
            c,
            files.drop_first(),
        )) + spec_file_emission(c, x));
    }
}

/// Appends the bytes of `data` to `out`.
fn append_bytes(out: &mut Vec<u8>, data: &Vec<u8>)
    ensures
        final(out)@ == old(out)@ + data@,
{
    let mut i: usize = 0;
    while i < data.len()
        invariant
            i <= data@.len(),
            out@ == old(out)@ + data@.take(i as int),
        decreases data@.len() - i,
    {
        let ghost prev = out@;
        out.push(data[i]);
        proof {
            assert(data@.take(i + 1) =~= data@.take(i as int).push(data@[i as int]));
            assert(prev.push(data@[i as int]) =~= old(out)@ + data@.take(i + 1));
        }
        i = i + 1;
    }
    proof {
        assert(data@.take(data@.len() as int) =~= data@);
    }
}

/// Appends the UTF-8 bytes of `s` to `out`.
fn append_str_bytes(out: &mut Vec<u8>, s: &str)
    ensures
        final(out)@ == old(out)@ + encode_utf8(s@),
{
    let bytes = s.as_bytes_vec();
    append_bytes(out, &bytes);
}

/// Runs the selection-and-concatenation core over the snapshot `root`:
/// compiles the pattern filter, lays down the optional tree block from
/// `tree_text`, and appends each accepted file's provenance line and bytes
/// in walk order, skipping the output file itself. Returns the bytes the
/// output resource receives.
pub fn concatenate_files(config: &Config, root: &FsNode, tree_text: &str) -> (r: Result<
    Vec<u8>,
    EngineError,
>)
    ensures
        r matches Ok(out) ==> out@ == spec_output(config@, tree_text@, root@) && all_patterns_ok(
            config@.patterns,
        ),
        patterns_compile(config@.patterns) ==> r is Ok,
        !all_patterns_ok(config@.patterns) ==> r is Err,
        r matches Err(e) ==> e matches EngineError::Filter(_),
        r matches Err(e) ==> (!all_patterns_ok(config@.patterns) ==> (e matches
            EngineError::Filter(fe) && (fe matches FilterError::InvalidPattern(p, m) && (
            exists|i: int|
                {
                    &&& #[trigger] first_bad_pattern(config@.patterns, i)
                    &&& p@ == config@.patterns[i]
                    &&& m@ == glob_error_text(effective_glob(config@.patterns[i]))
                })))),
{
    let filter = match FileFilter::new(&config.patterns) {
        Ok(f) => f,
        Err(e) => {
            return Err(EngineError::Filter(e));
        },
    };
    let mut out: Vec<u8> = Vec::new();
    if config.write_tree {
        append_str_bytes(&mut out, tree_text);
        out.push(10u8);
    }
    proof {
        assert(out@ =~= spec_header(config@, tree_text@));
    }
    let mut files: Vec<&FileEntry> = Vec::new();
    walk(root, config.max_depth, 0, &mut files);
    let ghost fv = entries_view(files@);
    proof {
        assert(fv =~= spec_visit_dir(root@, 0, config@.max_depth));
    }
    let n = files.len();
    let ghost c = config@;
    let mut i: usize = 0;
    while i < n
        invariant
            i <= n,
            n == files@.len(),
            fv == entries_view(files@),
            fv.len() == files@.len(),
            c == config@,
            filter@ == spec_filter_of(c.patterns),
            out@ == spec_header(c, tree_text@) + spec_emissions(c, fv.take(i as int)),
        decreases n - i,
    {
        let entry: &FileEntry = files[i];
        let ghost before = out@;
        proof {
            assert(entry@ == fv[i as int]);
            assert(fv.take(i + 1) =~= fv.take(i as int).push(fv[i as int]));
            lemma_emissions_push(c, fv.take(i as int), fv[i as int]);
        }
        let is_self = entry.canonical == config.output_canonical;
        if !is_self {
            if filter.should_process(entry.path.as_str()) {
                if config.write_filenames {
                    append_str_bytes(&mut out, config.comment_style.as_str());
                    out.push(32u8);
                    append_str_bytes(&mut out, entry.path.as_str());
                    out.push(10u8);
                }
                append_bytes(&mut out, &entry.bytes);
                out.push(10u8);
            }
        }
        proof {
            assert(out@ =~= before + spec_file_emission(c, fv[i as int]));
            assert(out@ =~= spec_header(c, tree_text@) + spec_emissions(c, fv.take(i + 1)));
        }
        i = i + 1;
    }
    proof {
        assert(fv.take(n as int) =~= fv);
    }
    Ok(out)
}


/// The walk sequence with the prior contents of every entry at the output's
/// own canonical path erased.
pub open spec fn spec_scrub_self(c: ConfigView, files: Seq<FileEntryView>) -> Seq<FileEntryView> {
    files.map_values(
        |f: FileEntryView|
            if f.canonical == c.output_canonical {
                FileEntryView { path: f.path, canonical: f.canonical, bytes: Seq::empty() }
            } else {
                f
            },
    )
}

/// Law, pointwise self-exclusion: an entry resolving to the output's own
/// canonical path contributes nothing to the output.
pub proof fn lemma_self_entry_emits_nothing(c: ConfigView, f: FileEntryView)
    requires
        f.canonical == c.output_canonical,
    ensures
        spec_file_emission(c, f) == Seq::<u8>::empty(),
{
}

/// The emitted bytes do not depend on the prior contents of the output
/// file: erasing the bytes of every entry at the output's canonical path
/// leaves the emissions unchanged.
pub proof fn lemma_emissions_ignore_self_bytes(c: ConfigView, files: Seq<FileEntryView>)
    ensures
        spec_emissions(c, files) == spec_emissions(c, spec_scrub_self(c, files)),
    decreases files.len(),
{
    let g = spec_scrub_self(c, files);
    if files.len() == 0 {
        assert(g =~= Seq::<FileEntryView>::empty());
    } else {
        assert(g.drop_first() =~= spec_scrub_self(c, files.drop_first()));
        lemma_emissions_ignore_self_bytes(c, files.drop_first());
        assert(spec_file_emission(c, g[0]) == spec_file_emission(c, files[0]));
    }
}

/// Law, self-exclusion of the whole run: the output equals what it would be
/// had the output file's prior contents been empty, so a run never reads
/// its own output back into itself.
pub proof fn lemma_output_never_reads_itself(c: ConfigView, tree_text: Seq<char>, root: FsNodeView)
    ensures
        spec_output(c, tree_text, root) == spec_header(c, tree_text) + spec_emissions(
            c,
            spec_scrub_self(c, spec_visit_dir(root, 0, c.max_depth)),
        ),
{
    lemma_emissions_ignore_self_bytes(c, spec_visit_dir(root, 0, c.max_depth));
}

/// Emissions agree for configurations that differ only in buffer size.
pub proof fn lemma_emissions_ignore_buffer_size(
    c1: ConfigView,
    c2: ConfigView,
    files: Seq<FileEntryView>,
)
    requires
        c1.patterns == c2.patterns,
        c1.write_filenames == c2.write_filenames,
        c1.comment_style == c2.comment_style,
        c1.output_canonical == c2.output_canonical,
    ensures
        spec_emissions(c1, files) == spec_emissions(c2, files),
    decreases files.len(),
{
    if files.len() > 0 {
        lemma_emissions_ignore_buffer_size(c1, c2, files.drop_first());
        assert(spec_file_emission(c1, files[0]) == spec_file_emission(c2, files[0]));
    }
}

/// Law, buffering is a performance knob and not a correctness knob: two
/// configurations that differ only in buffer size yield identical output
/// bytes on the same snapshot and tree text.
pub proof fn lemma_output_ignores_buffer_size(
    c1: ConfigView,
    c2: ConfigView,
    tree_text: Seq<char>,
    root: FsNodeView,
)
    requires
        c1.patterns == c2.patterns,
        c1.max_depth == c2.max_depth,
        c1.write_filenames == c2.write_filenames,
        c1.write_tree == c2.write_tree,
        c1.comment_style == c2.comment_style,
        c1.output_canonical == c2.output_canonical,
    ensures
        spec_output(c1, tree_text, root) == spec_output(c2, tree_text, root),
{
    lemma_emissions_ignore_buffer_size(c1, c2, spec_visit_dir(root, 0, c1.max_depth));
}

/// Law, order preservation: around any visited file the output splits into
/// the emissions of the files walked before it, its own contribution, and
/// the emissions of the files walked after it — concatenation follows the
/// walk's visitation order.
pub proof fn lemma_emissions_split(c: ConfigView, files: Seq<FileEntryView>, j: int)
    requires
        0 <= j < files.len(),
    ensures
        spec_emissions(c, files) == spec_emissions(c, files.take(j)) + spec_file_emission(
            c,
            files[j],
        ) + spec_emissions(c, files.skip(j + 1)),
    decreases j,
{
    if j == 0 {
        assert(files.take(0) =~= Seq::<FileEntryView>::empty());
        assert(files.skip(1) =~= files.drop_first());
        assert(spec_emissions(c, files.take(0)) + spec_file_emission(c, files[0]) + spec_emissions(
            c,
            files.skip(1),
        ) =~= spec_file_emission(c, files[0]) + spec_emissions(c, files.drop_first()));
    } else {
        lemma_emissions_split(c, files.drop_first(), j - 1);
        assert(files.drop_first().take(j - 1) =~= files.take(j).drop_first());
        assert(files.drop_first()[j - 1] == files[j]);
        assert(files.drop_first().skip(j) =~= files.skip(j + 1));
        assert(files.take(j)[0] == files[0]);
        assert(spec_emissions(c, files.take(j)) == spec_file_emission(c, files[0])
            + spec_emissions(c, files.take(j).drop_first()));
        assert(spec_file_emission(c, files[0]) + (spec_emissions(c, files.drop_first().take(j - 1))
            + spec_file_emission(c, files[j]) + spec_emissions(c, files.drop_first().skip(j)))
            =~= (spec_file_emission(c, files[0]) + spec_emissions(
            c,
            files.drop_first().take(j - 1),
        )) + spec_file_emission(c, files[j]) + spec_emissions(c, files.drop_first().skip(j)));
    }
}


/// Law, the depth ceiling seen at the output: a file lying only deeper than
/// the ceiling is never visited, so nothing of it reaches the output.
pub proof fn lemma_file_below_ceiling_not_visited(
    root: FsNodeView,
    f: FileEntryView,
    max_depth: nat,
)
    requires
        forall|d: nat| #[trigger] file_at_depth(root, f, d) ==> d > max_depth,
    ensures
        !spec_visit_dir(root, 0, max_depth).contains(f),
{
    if spec_visit_dir(root, 0, max_depth).contains(f) {
        lemma_walk_depth_bounded(root, 0, max_depth, f);
        let d = choose|d: nat| #[trigger] file_at_depth(root, f, d) && 0 + d <= max_depth;
        assert(false);
    }
}

/// Law, the other side of the ceiling: a file at a depth within it that the
/// filter selects, and that is not the output file itself, appears in the
/// output — its provenance line and bytes stand between the emissions of
/// the files walked before and after it.
pub proof fn lemma_file_within_ceiling_appears(
    c: ConfigView,
    tree_text: Seq<char>,
    root: FsNodeView,
    f: FileEntryView,
    d: nat,
)
    requires
        file_at_depth(root, f, d),
        d <= c.max_depth,
        f.canonical != c.output_canonical,
        spec_should_process(spec_filter_of(c.patterns), f.path),
    ensures
        spec_file_emission(c, f).len() > 0,
        exists|j: int|
            {
                &&& 0 <= j < spec_visit_dir(root, 0, c.max_depth).len()
                &&& spec_visit_dir(root, 0, c.max_depth)[j] == f
                &&& spec_output(c, tree_text, root) == spec_header(c, tree_text) + spec_emissions(
                    c,
                    #[trigger] spec_visit_dir(root, 0, c.max_depth).take(j),
                ) + spec_file_emission(c, f) + spec_emissions(
                    c,
                    spec_visit_dir(root, 0, c.max_depth).skip(j + 1),
                )
            },
{
    let files = spec_visit_dir(root, 0, c.max_depth);
    lemma_walk_depth_complete(root, 0, c.max_depth, f, d);
    let j = choose|j: int| 0 <= j < files.len() && files[j] == f;
    lemma_emissions_split(c, files, j);
    assert(spec_header(c, tree_text) + (spec_emissions(c, files.take(j)) + spec_file_emission(c, f)
        + spec_emissions(c, files.skip(j + 1))) =~= spec_header(c, tree_text) + spec_emissions(
        c,
        files.take(j),
    ) + spec_file_emission(c, f) + spec_emissions(c, files.skip(j + 1)));
    assert(0 <= j < files.len() && files[j] == f && spec_output(c, tree_text, root) == spec_header(
        c,
        tree_text,
    ) + spec_emissions(c, files.take(j)) + spec_file_emission(c, f) + spec_emissions(
        c,
        files.skip(j + 1),
    ));
}

} // verus!

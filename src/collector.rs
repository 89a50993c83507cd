use vstd::prelude::*;

use crate::lexer::same_text;
use crate::reflector::ShaderStage;

verus! {

/// Why a file found under the shader root is not collected.
#[derive(Clone, Copy, Debug, PartialEq, Eq, Structural)]
pub enum SkipReason {
    /// The file's path does not start with the shader root. The walk and the
    /// collection disagree about the root: a caller error, not a data problem.
    NotUnderRoot,
    /// The file name does not have exactly three `.`-separated parts.
    WrongPartCount,
    /// The last part of the file name is not `in`.
    WrongExtension,
    /// The middle part of the file name is not `vert`, `frag` or `comp`.
    UnknownStage,
}

/// A file whose name passed the `name.stage.in` check, not yet read.
#[derive(Debug)]
pub struct ShaderFile {
    /// Path relative to the shader root.
    pub relative_path: String,
    pub name: String,
    pub stage: ShaderStage,
}

/// The last component of a `/`-separated path: what follows the last `/`.
pub open spec fn last_component(p: Seq<char>) -> Seq<char>
    decreases p.len(),
{
    if p.len() == 0 || p.last() == '/' {
        Seq::empty()
    } else {
        last_component(p.drop_last()).push(p.last())
    }
}

/// The parts of `s` between `.` separators, as `str::split('.')` gives them.
pub open spec fn split_dots(s: Seq<char>) -> Seq<Seq<char>>
    decreases s.len(),
{
    if s.len() == 0 {
        seq![Seq::empty()]
    } else {
        let parts = split_dots(s.drop_last());
        if s.last() == '.' {
            parts.push(Seq::empty())
        } else {
            parts.update(parts.len() - 1, parts.last().push(s.last()))
        }
    }
}

/// The stage a file-name suffix stands for.
pub open spec fn stage_of(s: Seq<char>) -> Option<ShaderStage> {
    if s == "vert"@ {
        Some(ShaderStage::Vertex)
    } else if s == "frag"@ {
        Some(ShaderStage::Fragment)
    } else if s == "comp"@ {
        Some(ShaderStage::Compute)
    } else {
        None
    }
}

/// The verdict on a file name: its shader name and stage, or why it is
/// skipped. The checks come in this order: part count, extension, stage.
pub open spec fn filename_verdict(f: Seq<char>) -> Result<(Seq<char>, ShaderStage), SkipReason> {
    let parts = split_dots(f);
    if parts.len() != 3 {
        Err(SkipReason::WrongPartCount)
    } else if parts[2] != "in"@ {
        Err(SkipReason::WrongExtension)
    } else if stage_of(parts[1]) is None {
        Err(SkipReason::UnknownStage)
    } else {
        Ok((parts[0], stage_of(parts[1])->0))
    }
}

/// The path of `p` relative to `root`, when `p` lies under `root`.
pub open spec fn relative_to(root: Seq<char>, p: Seq<char>) -> Option<Seq<char>> {
    if p.len() > root.len() && p.take(root.len() as int) == root && p[root.len() as int] == '/' {
        Some(p.skip(root.len() as int + 1))
    } else {
        None
    }
}

/// The verdict on a file found under the shader root: its relative path,
/// shader name and stage, or why it is skipped.
pub open spec fn file_verdict(root: Seq<char>, p: Seq<char>) -> Result<
    (Seq<char>, Seq<char>, ShaderStage),
    SkipReason,
> {
    match relative_to(root, p) {
        None => Err(SkipReason::NotUnderRoot),
        Some(rel) => match filename_verdict(last_component(rel)) {
            Ok((name, stage)) => Ok((rel, name, stage)),
            Err(e) => Err(e),
        },
    }
}

/// The text of each part, in order.
pub open spec fn parts_view(v: Seq<String>) -> Seq<Seq<char>> {
    v.map_values(|s: String| s@)
}

/// Splitting always yields at least one part.
proof fn lemma_split_dots_nonempty(s: Seq<char>)
    ensures
        split_dots(s).len() >= 1,
    decreases s.len(),
{
    if s.len() > 0 {
        lemma_split_dots_nonempty(s.drop_last());
    }
}

/// The last component of a `/`-separated path.
pub fn final_component(path: &str) -> (r: String)
    ensures
        r@ == last_component(path@),
{
    let n = path.unicode_len();
    let mut j = n;
    assert(path@.subrange(n as int, n as int) =~= Seq::<char>::empty());
    assert(path@.take(n as int) =~= path@);
    while j > 0 && path.get_char(j - 1) != '/'
        invariant
            n == path@.len(),
            j <= n,
            last_component(path@) == last_component(path@.take(j as int)) + path@.subrange(j as int, n as int),
        decreases j,
    {
        let ghost t = path@.take(j as int);
        assert(t.drop_last() =~= path@.take(j - 1));
        assert(path@.subrange(j - 1, n as int) =~= seq![path@[j - 1]] + path@.subrange(j as int, n as int));
        assert(last_component(t) == last_component(t.drop_last()).push(t.last()));
        assert(last_component(path@.take(j - 1)).push(path@[j - 1]) + path@.subrange(j as int, n as int)
            =~= last_component(path@.take(j - 1)) + path@.subrange(j - 1, n as int));
        j = j - 1;
    }
    assert(last_component(path@.take(j as int)) =~= Seq::<char>::empty());
    assert(last_component(path@) =~= path@.subrange(j as int, n as int));
    path.substring_char(j, n).to_owned()
}

/// Whether a directory is reserved for generated output: its last path
/// component is exactly `gen`.
pub fn is_gen_directory(dir_path: &str) -> (r: bool)
    ensures
        r == (last_component(dir_path@) == "gen"@),
{
    let last = final_component(dir_path);
    same_text(last.as_str(), "gen")
}

/// Splits `s` at every `.`, as `str::split('.')` does.
pub fn split_on_dots(s: &str) -> (r: Vec<String>)
    ensures
        parts_view(r@) == split_dots(s@),
{
    let n = s.unicode_len();
    let mut parts: Vec<String> = Vec::new();
    let mut start: usize = 0;
    let mut j: usize = 0;
    assert(s@.take(0) =~= Seq::<char>::empty());
    assert(s@.subrange(0, 0) =~= Seq::<char>::empty());
    assert(parts_view(parts@) + seq![s@.subrange(0, 0)] =~= split_dots(s@.take(0)));
    while j < n
        invariant
            n == s@.len(),
            start <= j <= n,
            parts_view(parts@) + seq![s@.subrange(start as int, j as int)] == split_dots(s@.take(j as int)),
        decreases n - j,
    {
        let ghost t = s@.take(j + 1);
        assert(t.drop_last() =~= s@.take(j as int));
        proof { lemma_split_dots_nonempty(s@.take(j as int)); }
        if s.get_char(j) == '.' {
            let ghost before = parts@;
            parts.push(s.substring_char(start, j).to_owned());
            assert(parts_view(parts@) =~= parts_view(before).push(s@.subrange(start as int, j as int)));
            assert(s@.subrange(j + 1, j + 1) =~= Seq::<char>::empty());
            assert(parts_view(parts@) + seq![s@.subrange(j + 1, j + 1)] =~= split_dots(t));
            start = j + 1;
        } else {
            assert(s@.subrange(start as int, j + 1) =~= s@.subrange(start as int, j as int).push(s@[j as int]));
            assert(parts_view(parts@) + seq![s@.subrange(start as int, j + 1)] =~= split_dots(t));
        }
        j = j + 1;
    }
    let ghost before = parts@;
    parts.push(s.substring_char(start, n).to_owned());
    assert(parts_view(parts@) =~= parts_view(before).push(s@.subrange(start as int, n as int)));
    assert(s@.take(n as int) =~= s@);
    parts
}

/// The stage named by a file-name suffix: `vert`, `frag` or `comp`.
pub fn stage_from_suffix(suffix: &str) -> (r: Option<ShaderStage>)
    ensures
        r == stage_of(suffix@),
{
    if same_text(suffix, "vert") {
        Some(ShaderStage::Vertex)
    } else if same_text(suffix, "frag") {
        Some(ShaderStage::Fragment)
    } else if same_text(suffix, "comp") {
        Some(ShaderStage::Compute)
    } else {
        None
    }
}

/// Checks a file name against the `name.stage.in` convention and returns
/// the shader name and stage, or why the file is skipped.
pub fn parse_shader_filename(filename: &str) -> (r: Result<(String, ShaderStage), SkipReason>)
    ensures
        match r {
            Ok((name, stage)) => filename_verdict(filename@) == Ok::<_, SkipReason>((name@, stage)),
            Err(e) => filename_verdict(filename@) == Err::<(Seq<char>, ShaderStage), _>(e),
        },
{
    let parts = split_on_dots(filename);
    if parts.len() != 3 {
        return Err(SkipReason::WrongPartCount);
    }
    assert(parts_view(parts@)[1] == parts[1]@);
    assert(parts_view(parts@)[2] == parts[2]@);
    assert(parts_view(parts@)[0] == parts[0]@);
    if !same_text(parts[2].as_str(), "in") {
        return Err(SkipReason::WrongExtension);
    }
    match stage_from_suffix(parts[1].as_str()) {
        None => Err(SkipReason::UnknownStage),
        Some(stage) => Ok((parts[0].clone(), stage)),
    }
}

/// The path of `path` relative to `root`, when `path` lies under `root`.
pub fn strip_root(root: &str, path: &str) -> (r: Option<String>)
    ensures
        match r {
            Some(rel) => relative_to(root@, path@) == Some(rel@),
            None => relative_to(root@, path@) is None,
        },
{
    let n = root.unicode_len();
    let m = path.unicode_len();
    if m <= n {
        return None;
    }
    if !same_text(path.substring_char(0, n), root) {
        assert(path@.subrange(0, n as int) =~= path@.take(n as int));
        return None;
    }
    assert(path@.subrange(0, n as int) =~= path@.take(n as int));
    if path.get_char(n) != '/' {
        return None;
    }
    Some(path.substring_char(n + 1, m).to_owned())
}

/// Whether a concrete outcome is the verdict `v`.
pub open spec fn is_verdict(
    r: Result<ShaderFile, SkipReason>,
    v: Result<(Seq<char>, Seq<char>, ShaderStage), SkipReason>,
) -> bool {
    match r {
        Ok(f) => v == Ok::<_, SkipReason>((f.relative_path@, f.name@, f.stage)),
        Err(e) => v == Err::<(Seq<char>, Seq<char>, ShaderStage), _>(e),
    }
}

/// Checks a file found under the shader root: its path must lie under
/// `root`, and its name must follow `name.stage.in`.
pub fn classify_shader_file(root: &str, file_path: &str) -> (r: Result<ShaderFile, SkipReason>)
    ensures
        is_verdict(r, file_verdict(root@, file_path@)),
{
    let relative_path = match strip_root(root, file_path) {
        Some(rel) => rel,
        None => return Err(SkipReason::NotUnderRoot),
    };
    let filename = final_component(relative_path.as_str());
    match parse_shader_filename(filename.as_str()) {
        Ok((name, stage)) => Ok(ShaderFile { relative_path, name, stage }),
        Err(e) => Err(e),
    }
}

/// The collection step for one directory, given the paths of the files it
/// holds (not its subdirectories). A `gen` directory yields nothing. Any
/// other yields exactly one outcome per file, in order: the file to read,
/// or the one reason it is skipped.
pub fn collect_directory(root: &str, dir_path: &str, file_paths: &Vec<String>) -> (r: Vec<
    Result<ShaderFile, SkipReason>,
>)
    ensures
        last_component(dir_path@) == "gen"@ ==> r@.len() == 0,
        last_component(dir_path@) != "gen"@ ==> r@.len() == file_paths@.len(),
        last_component(dir_path@) != "gen"@ ==> forall|k: int|
            0 <= k < r@.len() ==> is_verdict(#[trigger] r@[k], file_verdict(root@, file_paths@[k]@)),
{
    let mut out: Vec<Result<ShaderFile, SkipReason>> = Vec::new();
    if is_gen_directory(dir_path) {
        return out;
    }
    let mut k: usize = 0;
    while k < file_paths.len()
        invariant
            k <= file_paths@.len(),
            out@.len() == k,
            forall|i: int| 0 <= i < k ==> is_verdict(#[trigger] out@[i], file_verdict(root@, file_paths@[i]@)),
        decreases file_paths@.len() - k,
    {
        out.push(classify_shader_file(root, file_paths[k].as_str()));
        k = k + 1;
    }
    out
}

/// Whether a file name follows `name.stage.in`: three `.`-separated parts,
/// a known stage in the middle, `in` last.
pub open spec fn follows_convention(f: Seq<char>) -> bool {
    exists|name: Seq<char>, suffix: Seq<char>|
        split_dots(f) == #[trigger] shader_parts(name, suffix) && stage_of(suffix) is Some
}

/// The parts of a conventional file name.
pub open spec fn shader_parts(name: Seq<char>, suffix: Seq<char>) -> Seq<Seq<char>> {
    seq![name, suffix, "in"@]
}

/// A file name is accepted exactly when it follows `name.stage.in`; any
/// other is skipped with a single reason. With `collect_directory`, which
/// yields exactly one outcome per file, every such file is left out with
/// exactly one diagnostic.
pub proof fn lemma_only_conventional_names_accepted(f: Seq<char>)
    ensures
        filename_verdict(f) is Ok <==> follows_convention(f),
        !follows_convention(f) ==> filename_verdict(f) is Err,
{
    let parts = split_dots(f);
    if filename_verdict(f) is Ok {
        assert(parts =~= shader_parts(parts[0], parts[1]));
        assert(stage_of(parts[1]) is Some);
    }
    if follows_convention(f) {
        let (name, suffix) = choose|name: Seq<char>, suffix: Seq<char>|
            split_dots(f) == #[trigger] shader_parts(name, suffix) && stage_of(suffix) is Some;
        assert(parts[1] == suffix);
        assert(parts[2] == "in"@);
    }
}

} // verus!

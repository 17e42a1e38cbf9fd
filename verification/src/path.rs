use vstd::prelude::*;
use crate::error::{Error, ErrorType, LocView};
use crate::text::{push_char, push_str, chars_of, string_from_chars, split_on, split_chars, copy_str, str_eq, str_ends_with, ends_with, strings_eq, lemma_split_on_nonempty};

verus! {

/// A path inside a named virtual tree: a `root` directory on disk, a locked
/// prefix of components that `..` can never climb out of, and the unlocked
/// components below it.
#[derive(Clone, Debug, PartialEq, Eq, Hash)]
pub struct VirtPath {
    name: String,
    root: String,
    locked_parts: Vec<String>,
    parts: Vec<String>,
}

/// The mathematical content of a `VirtPath`.
pub struct VirtPathView {
    pub name: Seq<char>,
    pub root: Seq<char>,
    pub locked: Seq<Seq<char>>,
    pub parts: Seq<Seq<char>>,
}

impl View for VirtPath {
    type V = VirtPathView;

    closed spec fn view(&self) -> VirtPathView {
        VirtPathView {
            name: self.name@,
            root: self.root@,
            locked: self.locked_parts.deep_view(),
            parts: self.parts.deep_view(),
        }
    }
}

/// `PathBuf::push` on a Unix path: an absolute `part` replaces the path,
/// otherwise it is joined with one `/` unless the path is empty or already
/// ends with one.
pub open spec fn path_push(base: Seq<char>, part: Seq<char>) -> Seq<char> {
    if part.len() > 0 && part[0] == '/' {
        part
    } else if base.len() == 0 || base.last() == '/' {
        base + part
    } else {
        base + seq!['/'] + part
    }
}

/// `base` with every element of `parts` pushed onto it in turn.
pub open spec fn path_join(base: Seq<char>, parts: Seq<Seq<char>>) -> Seq<char>
    decreases parts.len(),
{
    if parts.len() == 0 {
        base
    } else {
        path_push(path_join(base, parts.drop_last()), parts.last())
    }
}

/// Every component, locked or not, from the root down.
pub open spec fn all_parts(v: VirtPathView) -> Seq<Seq<char>> {
    v.locked + v.parts
}

/// `/p1/p2/...` for the given components.
pub open spec fn slash_joined(parts: Seq<Seq<char>>) -> Seq<char>
    decreases parts.len(),
{
    if parts.len() == 0 {
        Seq::<char>::empty()
    } else {
        slash_joined(parts.drop_last()) + seq!['/'] + parts.last()
    }
}

/// The display form `[name]/locked.../$/parts...`.
pub open spec fn spec_display(v: VirtPathView) -> Seq<char> {
    seq!['['] + v.name + seq![']'] + slash_joined(v.locked) + "/$"@ + slash_joined(v.parts)
}

/// The pieces `ext` applies to a path: its first `/`-separated segment
/// extends the last component, every later segment becomes a component of
/// its own.
pub open spec fn spec_apply_parts(parts: Seq<Seq<char>>, ext: Seq<char>) -> Seq<Seq<char>> {
    let segs = split_on(ext, '/');
    let head = if segs[0].len() == 0 {
        parts
    } else {
        parts.update(parts.len() - 1, parts.last() + segs[0])
    };
    head + segs.skip(1)
}

fn append_slashed(out: &mut String, parts: &Vec<String>)
    ensures
        final(out)@ == old(out)@ + slash_joined(parts.deep_view()),
{
    let mut i: usize = 0;
    while i < parts.len()
        invariant
            i <= parts@.len(),
            out@ == old(out)@ + slash_joined(parts.deep_view().take(i as int)),
        decreases parts.len() - i,
    {
        push_char(out, '/');
        push_str(out, parts[i].as_str());
        assert(parts.deep_view().take(i + 1).drop_last() =~= parts.deep_view().take(i as int));
        i = i + 1;
    }
    assert(parts.deep_view().take(parts@.len() as int) =~= parts.deep_view());
}

fn join_onto(out: &mut String, parts: &Vec<String>, Ghost(base): Ghost<Seq<char>>)
    requires
        old(out)@ == base,
    ensures
        final(out)@ == path_join(base, parts.deep_view()),
{
    let mut i: usize = 0;
    while i < parts.len()
        invariant
            i <= parts@.len(),
            out@ == path_join(base, parts.deep_view().take(i as int)),
        decreases parts.len() - i,
    {
        let part = chars_of(parts[i].as_str());
        let ghost prev = out@;
        assert(parts.deep_view().take(i + 1).drop_last() =~= parts.deep_view().take(i as int));
        if part.len() > 0 && part[0] == '/' {
            *out = string_from_chars(&part, 0, part.len());
            assert(part@.subrange(0, part@.len() as int) =~= part@);
        } else {
            let cur = chars_of(out.as_str());
            if !(cur.len() == 0 || cur[cur.len() - 1] == '/') {
                push_char(out, '/');
            }
            push_str(out, parts[i].as_str());
        }
        i = i + 1;
    }
    assert(parts.deep_view().take(parts@.len() as int) =~= parts.deep_view());
}

/// What `std::path::Path::parent` gives for the path `path`.
pub uninterp spec fn spec_path_parent(path: Seq<char>) -> Option<Seq<char>>;

/// What `std::path::Path::file_name` gives for the path `path`.
pub uninterp spec fn spec_path_file_name(path: Seq<char>) -> Option<Seq<char>>;

/// What `pathdiff::diff_paths` gives for the relative path from `base` to
/// `path`.
pub uninterp spec fn spec_diff_paths(path: Seq<char>, base: Seq<char>) -> Option<Seq<char>>;

/// `std::path::Path::parent` of `path`: the path without its final
/// component. Claimed: the result is `spec_path_parent` of the argument;
/// nothing more about its shape is stated.
#[verifier::external_body]
fn path_parent(path: &str) -> (r: Option<String>)
    ensures
        r.deep_view() == spec_path_parent(path@),
{
    std::path::Path::new(path).parent().map(|p| p.to_string_lossy().into_owned())
}

/// `std::path::Path::file_name` of `path`: its final component, if it is a
/// normal one. Claimed: the result is `spec_path_file_name` of the
/// argument; nothing more about its shape is stated.
#[verifier::external_body]
fn path_file_name(path: &str) -> (r: Option<String>)
    ensures
        r.deep_view() == spec_path_file_name(path@),
{
    std::path::Path::new(path).file_name().map(|p| p.to_string_lossy().into_owned())
}

/// `pathdiff::diff_paths(path, base)`: the path that leads from `base` to
/// `path`, if there is one. Claimed: the result is `spec_diff_paths` of the
/// two arguments; how it is computed is not stated.
#[verifier::external_body]
fn diff_paths(path: &str, base: &str) -> (r: Option<String>)
    ensures
        r.deep_view() == spec_diff_paths(path@, base@),
{
    pathdiff::diff_paths(path, base).map(|p| p.to_string_lossy().into_owned())
}

/// A `Custom` error carrying `msg`.
fn custom_error(msg: String) -> (e: Error)
    ensures
        e.typ == ErrorType::Custom,
        e.msg@ == msg@,
        e.frames_view() == Seq::<LocView>::empty(),
{
    Error::new(ErrorType::Custom, msg)
}

/// The relative path from the real path of `base` to that of `p`, if
/// there is one.
pub open spec fn spec_rebase(p: VirtPathView, base: VirtPathView) -> Option<Seq<char>> {
    spec_diff_paths(path_join(p.root, all_parts(p)), path_join(base.root, all_parts(base)))
}

pub open spec fn rebase_msg(p: VirtPathView, base: VirtPathView) -> Seq<char> {
    "Failed to compute relative path from "@ + spec_display(p) + " to "@ + spec_display(base)
}

/// `p` moved from under `from` to under `to`: when `p` is in the tree of
/// `from` and its components begin with those of `from`, the components
/// of `to` followed by the rest of those of `p`.
pub open spec fn spec_translate(p: VirtPathView, from: VirtPathView, to: VirtPathView) -> Option<VirtPathView> {
    if p.name == from.name && p.root == from.root && all_parts(from).len() <= all_parts(p).len()
        && all_parts(p).subrange(0, all_parts(from).len() as int) == all_parts(from) {
        Some(VirtPathView {
            name: to.name,
            root: to.root,
            locked: to.locked,
            parts: to.parts + all_parts(p).skip(all_parts(from).len() as int),
        })
    } else {
        None
    }
}

/// The path after walking `e`: `..` goes up (none when no unlocked
/// component is left), `.` stays, anything else descends into it.
pub open spec fn spec_step(v: VirtPathView, e: Seq<char>) -> Option<VirtPathView> {
    if e == ".."@ {
        if v.parts.len() > 0 {
            Some(VirtPathView { name: v.name, root: v.root, locked: v.locked, parts: v.parts.drop_last() })
        } else {
            None
        }
    } else if e == "."@ {
        Some(v)
    } else {
        Some(VirtPathView { name: v.name, root: v.root, locked: v.locked, parts: v.parts.push(e) })
    }
}

/// The path with `suffix` appended to its last unlocked component.
pub open spec fn spec_add_suffix(v: VirtPathView, suffix: Seq<char>) -> VirtPathView {
    VirtPathView {
        name: v.name,
        root: v.root,
        locked: v.locked,
        parts: v.parts.update(v.parts.len() - 1, v.parts.last() + suffix),
    }
}

/// The path with `suffix` cut from the end of its last unlocked component.
pub open spec fn spec_remove_suffix(v: VirtPathView, suffix: Seq<char>) -> VirtPathView {
    VirtPathView {
        name: v.name,
        root: v.root,
        locked: v.locked,
        parts: v.parts.update(v.parts.len() - 1, v.parts.last().subrange(0, v.parts.last().len() - suffix.len())),
    }
}

/// Descending into a component and then walking `..` gives back the path.
pub proof fn lemma_step_down_up(v: VirtPathView, e: Seq<char>)
    requires
        e != ".."@,
        e != "."@,
    ensures
        spec_step(v, e) is Some,
        spec_step(spec_step(v, e)->0, ".."@) == Some(v),
{
    let w = spec_step(v, e)->0;
    assert(w.parts.drop_last() =~= v.parts);
}

/// Removing the suffix just added gives back the path.
pub proof fn lemma_remove_added_suffix(v: VirtPathView, suffix: Seq<char>)
    requires
        v.parts.len() > 0,
    ensures
        spec_add_suffix(v, suffix).parts.len() > 0,
        ends_with(spec_add_suffix(v, suffix).parts.last(), suffix),
        spec_remove_suffix(spec_add_suffix(v, suffix), suffix) == v,
{
    let w = spec_add_suffix(v, suffix);
    let last = v.parts.last() + suffix;
    assert(w.parts.last() == last);
    assert(last.subrange(last.len() - suffix.len(), last.len() as int) =~= suffix);
    assert(last.subrange(0, last.len() - suffix.len()) =~= v.parts.last());
    assert(spec_remove_suffix(w, suffix).parts =~= v.parts);
}

/// Moving a path from under `from` to under `to` and back gives the path
/// again, when it was locked exactly as far as `from`.
pub proof fn lemma_translate_back(p: VirtPathView, from: VirtPathView, to: VirtPathView)
    requires
        spec_translate(p, from, to) is Some,
        p.locked == from.locked,
    ensures
        spec_translate(spec_translate(p, from, to)->0, to, from) == Some(p),
{
    let q = spec_translate(p, from, to)->0;
    let rest = all_parts(p).skip(all_parts(from).len() as int);
    assert(all_parts(q) =~= all_parts(to) + rest);
    assert(all_parts(q).subrange(0, all_parts(to).len() as int) =~= all_parts(to));
    assert(all_parts(q).skip(all_parts(to).len() as int) =~= rest);
    assert(all_parts(p) =~= all_parts(from) + rest);
    assert(p.parts =~= from.parts + rest) by {
        assert(all_parts(p) =~= p.locked + p.parts);
        assert(all_parts(from) =~= from.locked + from.parts);
        assert forall|i: int| 0 <= i < p.parts.len() implies p.parts[i] == (from.parts + rest)[i] by {
            assert(all_parts(p)[p.locked.len() + i] == p.parts[i]);
        }
    }
}

impl VirtPath {
    /// A copy of this path.
    pub fn copy(&self) -> (r: VirtPath)
        ensures
            r@ == self@,
    {
        let lp = self.locked_parts.clone();
        let pp = self.parts.clone();
        assert(lp@ =~= self.locked_parts@);
        assert(pp@ =~= self.parts@);
        VirtPath {
            name: self.name.clone(),
            root: self.root.clone(),
            locked_parts: lp,
            parts: pp,
        }
    }

    /// A path with no components, rooted at `.` in the tree `name`.
    pub fn new(name: &str) -> (r: VirtPath)
        ensures
            r@.name == name@,
            r@.root == "."@,
            r@.locked == Seq::<Seq<char>>::empty(),
            r@.parts == Seq::<Seq<char>>::empty(),
    {
        let r = VirtPath {
            name: copy_str(name),
            root: copy_str("."),
            locked_parts: Vec::new(),
            parts: Vec::new(),
        };
        assert(r@.locked =~= Seq::<Seq<char>>::empty());
        assert(r@.parts =~= Seq::<Seq<char>>::empty());
        r
    }

    /// A path with no components, rooted at `root` in the tree `name`.
    pub fn with_root(root: &str, name: &str) -> (r: VirtPath)
        ensures
            r@.name == name@,
            r@.root == root@,
            r@.locked == Seq::<Seq<char>>::empty(),
            r@.parts == Seq::<Seq<char>>::empty(),
    {
        let r = VirtPath {
            name: copy_str(name),
            root: copy_str(root),
            locked_parts: Vec::new(),
            parts: Vec::new(),
        };
        assert(r@.locked =~= Seq::<Seq<char>>::empty());
        assert(r@.parts =~= Seq::<Seq<char>>::empty());
        r
    }

    /// A path in the tree `name` whose root is `root` and whose only
    /// (unlocked) component is `file`.
    pub fn from_root_and_file(root: &str, file: &str, name: &str) -> (r: VirtPath)
        ensures
            r@.name == name@,
            r@.root == root@,
            r@.locked == Seq::<Seq<char>>::empty(),
            r@.parts == seq![file@],
    {
        let mut parts: Vec<String> = Vec::new();
        parts.push(copy_str(file));
        let r = VirtPath {
            name: copy_str(name),
            root: copy_str(root),
            locked_parts: Vec::new(),
            parts,
        };
        assert(r@.locked =~= Seq::<Seq<char>>::empty());
        assert(r@.parts =~= seq![file@]);
        r
    }

    /// Moves every unlocked component into the locked prefix.
    pub fn lock(self) -> (r: VirtPath)
        ensures
            r@.name == self@.name,
            r@.root == self@.root,
            r@.locked == self@.locked + self@.parts,
            r@.parts == Seq::<Seq<char>>::empty(),
    {
        let mut res = self;
        let mut moved = Vec::new();
        std::mem::swap(&mut moved, &mut res.parts);
        let ghost old_locked = res.locked_parts.deep_view();
        res.locked_parts.append(&mut moved);
        assert(res@.locked =~= self@.locked + self@.parts);
        assert(res@.parts =~= Seq::<Seq<char>>::empty());
        res
    }

    /// The path one unlocked component up; an error when no unlocked
    /// component is left.
    pub fn parent(self) -> (r: Result<VirtPath, Error>)
        ensures
            self@.parts.len() > 0 <==> r is Ok,
            r matches Ok(p) ==> p@.name == self@.name && p@.root == self@.root
                && p@.locked == self@.locked && p@.parts == self@.parts.drop_last(),
            r matches Err(e) ==> e.typ == ErrorType::Custom
                && e.msg@ == "Parent of "@ + spec_display(self@) + " locked"@
                && e.frames_view() == Seq::<LocView>::empty(),
    {
        let mut out = self;
        if out.parts.len() == 0 {
            let mut msg = copy_str("Parent of ");
            let shown = out.to_string();
            push_str(&mut msg, shown.as_str());
            push_str(&mut msg, " locked");
            return Err(custom_error(msg));
        }
        let _ = out.parts.pop();
        assert(out@.parts =~= self@.parts.drop_last());
        Ok(out)
    }

    /// The path after walking `elem`: `..` goes up, `.` stays, anything
    /// else descends into a component of that name.
    pub fn step(self, elem: &str) -> (r: Result<VirtPath, Error>)
        ensures
            elem@ == ".."@ ==> (self@.parts.len() > 0 <==> r is Ok),
            r matches Ok(p) ==> p@.name == self@.name && p@.root == self@.root
                && p@.locked == self@.locked
                && p@.parts == (if elem@ == ".."@ {
                    self@.parts.drop_last()
                } else if elem@ == "."@ {
                    self@.parts
                } else {
                    self@.parts.push(elem@)
                }),
            elem@ != ".."@ ==> r is Ok,
            r matches Ok(p) ==> spec_step(self@, elem@) == Some(p@),
            r is Err ==> spec_step(self@, elem@) is None,
            r matches Err(e) ==> e.typ == ErrorType::Custom
                && e.msg@ == "Parent of "@ + spec_display(self@) + " locked"@
                && e.frames_view() == Seq::<LocView>::empty(),
    {
        if str_eq(elem, "..") {
            self.parent()
        } else if str_eq(elem, ".") {
            Ok(self)
        } else {
            let mut out = self;
            out.parts.push(copy_str(elem));
            assert(out@.parts =~= self@.parts.push(elem@));
            Ok(out)
        }
    }

    /// The path with `ext` applied: the first `/`-separated segment of
    /// `ext` extends the last unlocked component, every later segment
    /// becomes a new component. An error when the first segment is not
    /// empty and there is no unlocked component to extend.
    pub fn apply(&self, ext: &str) -> (r: Result<VirtPath, Error>)
        ensures
            r is Err <==> (split_on(ext@, '/')[0].len() > 0 && self@.parts.len() == 0),
            r matches Ok(p) ==> p@.name == self@.name && p@.root == self@.root
                && p@.locked == self@.locked
                && p@.parts == spec_apply_parts(self@.parts, ext@),
            r matches Err(e) ==> e.typ == ErrorType::Custom
                && e.msg@ == "can't add suffix to path without unlocked elements: "@ + spec_display(self@)
                && e.frames_view() == Seq::<LocView>::empty(),
    {
        let segs = split_chars(ext, '/');
        proof { lemma_split_on_nonempty(ext@, '/'); }
        let first_len = chars_of(segs[0].as_str()).len();
        if first_len > 0 && self.parts.len() == 0 {
            let mut msg = copy_str("can't add suffix to path without unlocked elements: ");
            let shown = self.to_string();
            push_str(&mut msg, shown.as_str());
            return Err(custom_error(msg));
        }
        let mut out = self.copy();
        assert(out.parts@.len() == out@.parts.len() && self.parts@.len() == self@.parts.len());
        if first_len > 0 {
            let last_idx = out.parts.len() - 1;
            let mut last = out.parts[last_idx].clone();
            push_str(&mut last, segs[0].as_str());
            out.parts.set(last_idx, last);
        }
        let ghost head = out@.parts;
        assert(head == (if segs.deep_view()[0].len() == 0 {
            self@.parts
        } else {
            self@.parts.update(self@.parts.len() - 1, self@.parts.last() + segs.deep_view()[0])
        })) by {
            assert(out@.parts =~= head);
        }
        let mut i: usize = 1;
        while i < segs.len()
            invariant
                1 <= i <= segs@.len(),
                out@.name == self@.name,
                out@.root == self@.root,
                out@.locked == self@.locked,
                out@.parts == head + segs.deep_view().subrange(1, i as int),
            decreases segs.len() - i,
        {
            let ghost before = out@.parts;
            let seg = segs[i].clone();
            out.parts.push(seg);
            assert(out@.parts =~= before.push(segs.deep_view()[i as int]));
            assert(out@.parts =~= head + segs.deep_view().subrange(1, i + 1));
            i = i + 1;
        }
        assert(segs.deep_view().subrange(1, segs@.len() as int) =~= segs.deep_view().skip(1));
        Ok(out)
    }

    /// The path with `suffix` appended to its last unlocked component; an
    /// error when there is none.
    pub fn add_suffix(&self, suffix: &str) -> (r: Result<VirtPath, Error>)
        ensures
            r is Ok <==> self@.parts.len() > 0,
            r matches Ok(p) ==> p@.name == self@.name && p@.root == self@.root
                && p@.locked == self@.locked
                && p@.parts == self@.parts.update(self@.parts.len() - 1, self@.parts.last() + suffix@),
            r matches Ok(p) ==> p@ == spec_add_suffix(self@, suffix@),
            r matches Err(e) ==> e.typ == ErrorType::Custom
                && e.msg@ == "can't add suffix to path without unlocked elements: "@ + spec_display(self@)
                && e.frames_view() == Seq::<LocView>::empty(),
    {
        if self.parts.len() == 0 {
            let mut msg = copy_str("can't add suffix to path without unlocked elements: ");
            let shown = self.to_string();
            push_str(&mut msg, shown.as_str());
            return Err(custom_error(msg));
        }
        let mut out = self.copy();
        assert(out.parts@.len() == out@.parts.len() && self.parts@.len() == self@.parts.len());
        let last_idx = out.parts.len() - 1;
        let mut last = out.parts[last_idx].clone();
        push_str(&mut last, suffix);
        out.parts.set(last_idx, last);
        assert(out@.parts =~= self@.parts.update(self@.parts.len() - 1, self@.parts.last() + suffix@));
        Ok(out)
    }

    /// The path with `suffix` removed from the end of its last unlocked
    /// component; an error when there is no unlocked component or the last
    /// one does not end with `suffix`.
    pub fn remove_suffix(&self, suffix: &str) -> (r: Result<VirtPath, Error>)
        ensures
            r is Ok <==> (self@.parts.len() > 0 && ends_with(self@.parts.last(), suffix@)),
            r matches Ok(p) ==> p@.name == self@.name && p@.root == self@.root
                && p@.locked == self@.locked
                && p@.parts == self@.parts.update(
                    self@.parts.len() - 1,
                    self@.parts.last().subrange(0, self@.parts.last().len() - suffix@.len()),
                ),
            r matches Ok(p) ==> p@ == spec_remove_suffix(self@, suffix@),
            r matches Err(e) ==> e.typ == ErrorType::Custom && e.msg@ == (if self@.parts.len() == 0 {
                "can't remove suffix from path without unlocked elements: "@ + spec_display(self@)
            } else {
                "Invalid suffix "@ + suffix@ + " for path "@ + spec_display(self@)
            }) && e.frames_view() == Seq::<LocView>::empty(),
    {
        if self.parts.len() == 0 {
            let mut msg = copy_str("can't remove suffix from path without unlocked elements: ");
            let shown = self.to_string();
            push_str(&mut msg, shown.as_str());
            return Err(custom_error(msg));
        }
        let last_idx = self.parts.len() - 1;
        let last = chars_of(self.parts[last_idx].as_str());
        let suf = chars_of(suffix);
        if !str_ends_with(&last, &suf) {
            let mut msg = copy_str("Invalid suffix ");
            push_str(&mut msg, suffix);
            push_str(&mut msg, " for path ");
            let shown = self.to_string();
            push_str(&mut msg, shown.as_str());
            return Err(custom_error(msg));
        }
        let mut out = self.copy();
        assert(out.parts@.len() == out@.parts.len() && self.parts@.len() == self@.parts.len());
        let kept = string_from_chars(&last, 0, last.len() - suf.len());
        out.parts.set(last_idx, kept);
        assert(out@.parts =~= self@.parts.update(
            self@.parts.len() - 1,
            self@.parts.last().subrange(0, self@.parts.last().len() - suffix@.len()),
        ));
        Ok(out)
    }

    /// The file system path this virtual path stands for: the root with
    /// every locked, then every unlocked, component pushed onto it.
    pub fn to_path_buf(&self) -> (r: String)
        ensures
            r@ == path_join(self@.root, all_parts(self@)),
    {
        let mut out = self.root.clone();
        let mut all = self.locked_parts.clone();
        let mut rest = self.parts.clone();
        assert(all.deep_view() =~= self@.locked);
        assert(rest.deep_view() =~= self@.parts);
        all.append(&mut rest);
        join_onto(&mut out, &all, Ghost(self@.root));
        assert(all.deep_view() =~= all_parts(self@));
        out
    }

    /// The display form `[name]/locked.../$/parts...`.
    pub fn to_string(&self) -> (r: String)
        ensures
            r@ == spec_display(self@),
    {
        let mut out = String::new();
        push_char(&mut out, '[');
        push_str(&mut out, self.name.as_str());
        push_char(&mut out, ']');
        append_slashed(&mut out, &self.locked_parts);
        push_str(&mut out, "/$");
        append_slashed(&mut out, &self.parts);
        proof { reveal_strlit("/$"); }
        assert(out@ =~= spec_display(self@));
        out
    }

    /// The same file found under `to` instead of under `from`: `None` when
    /// this path is not in `from`'s tree or does not lie below `from`.
    pub fn translate(self, from: &VirtPath, to: &VirtPath) -> (r: Option<VirtPath>)
        ensures
            r is Some <==> (self@.name == from@.name && self@.root == from@.root
                && all_parts(from@).len() <= all_parts(self@).len()
                && all_parts(self@).subrange(0, all_parts(from@).len() as int) == all_parts(from@)),
            r matches Some(p) ==> p@.name == to@.name && p@.root == to@.root
                && p@.locked == to@.locked
                && p@.parts == to@.parts + all_parts(self@).skip(all_parts(from@).len() as int),
            r matches Some(p) ==> spec_translate(self@, from@, to@) == Some(p@),
            r is None ==> spec_translate(self@, from@, to@) is None,
    {
        if !str_eq(self.name.as_str(), from.name.as_str()) || !str_eq(self.root.as_str(), from.root.as_str()) {
            return None;
        }
        let mut self_path = self.locked_parts.clone();
        let mut sp = self.parts.clone();
        self_path.append(&mut sp);
        let mut from_path = from.locked_parts.clone();
        let mut fp = from.parts.clone();
        from_path.append(&mut fp);
        assert(self_path.deep_view() =~= all_parts(self@));
        assert(from_path.deep_view() =~= all_parts(from@));
        assert(from_path@.len() == from_path.deep_view().len() && self_path@.len() == self_path.deep_view().len());
        if from_path.len() > self_path.len() {
            return None;
        }
        let mut i: usize = 0;
        while i < from_path.len()
            invariant
                i <= from_path@.len() <= self_path@.len(),
                self_path.deep_view() == all_parts(self@),
                from_path.deep_view() == all_parts(from@),
                from_path@.len() == from_path.deep_view().len(),
                forall|j: int| 0 <= j < i ==> self_path.deep_view()[j] == from_path.deep_view()[j],
            decreases from_path.len() - i,
        {
            if !str_eq(self_path[i].as_str(), from_path[i].as_str()) {
                assert(self_path.deep_view().subrange(0, from_path@.len() as int)[i as int]
                    != from_path.deep_view()[i as int]);
                return None;
            }
            i = i + 1;
        }
        assert(self_path.deep_view().subrange(0, from_path@.len() as int) =~= from_path.deep_view());
        let mut new_parts = to.parts.clone();
        let ghost np0 = new_parts.deep_view();
        assert(np0 =~= to@.parts);
        let mut k = from_path.len();
        while k < self_path.len()
            invariant
                from_path@.len() <= k <= self_path@.len(),
                new_parts.deep_view() == to@.parts + self_path.deep_view().subrange(from_path@.len() as int, k as int),
            decreases self_path.len() - k,
        {
            let ghost before = new_parts.deep_view();
            let seg = self_path[k].clone();
            new_parts.push(seg);
            assert(new_parts.deep_view() =~= before.push(self_path.deep_view()[k as int]));
            assert(new_parts.deep_view() =~= to@.parts + self_path.deep_view().subrange(from_path@.len() as int, k + 1));
            k = k + 1;
        }
        assert(self_path.deep_view().subrange(from_path@.len() as int, self_path@.len() as int)
            =~= all_parts(self@).skip(all_parts(from@).len() as int));
        Some(VirtPath {
            name: to.name.clone(),
            root: to.root.clone(),
            locked_parts: to.locked_parts.clone(),
            parts: new_parts,
        })
    }

    /// The file at `path` as the only unlocked component of a new tree
    /// `name`, rooted at the directory that holds it. Needs a path with a
    /// parent and a file name (as `std::path::Path` splits it).
    pub fn virtualize(path: &str, name: &str) -> (r: VirtPath)
        requires
            spec_path_parent(path@) is Some,
            spec_path_file_name(path@) is Some,
        ensures
            r@.name == name@,
            r@.root == spec_path_parent(path@)->0,
            r@.locked == Seq::<Seq<char>>::empty(),
            r@.parts == seq![spec_path_file_name(path@)->0],
    {
        let root = path_parent(path);
        let file = path_file_name(path);
        match (root, file) {
            (Some(root), Some(file)) => VirtPath::from_root_and_file(root.as_str(), file.as_str(), name),
            _ => {
                assert(false);
                VirtPath::new(name)
            }
        }
    }

    /// `virtualize`, or `None` when `path` has no parent or no file name.
    pub fn try_virtualize(path: &str, name: &str) -> (r: Option<VirtPath>)
        ensures
            r is Some <==> (spec_path_parent(path@) is Some && spec_path_file_name(path@) is Some),
            r matches Some(p) ==> p@.name == name@
                && p@.root == spec_path_parent(path@)->0
                && p@.locked == Seq::<Seq<char>>::empty()
                && p@.parts == seq![spec_path_file_name(path@)->0],
    {
        let root = path_parent(path);
        let file = path_file_name(path);
        if root.is_some() && file.is_some() {
            Some(VirtPath::virtualize(path, name))
        } else {
            None
        }
    }

    /// The relative path that leads from `base` to this path; an error
    /// when there is none.
    pub fn to_path_buf_rebase(&self, base: &VirtPath) -> (r: Result<String, Error>)
        ensures
            match spec_rebase(self@, base@) {
                Some(rel) => r matches Ok(s) && s@ == rel,
                None => r matches Err(e) && e@ == crate::error::err_v(ErrorType::Custom, rebase_msg(self@, base@)),
            },
    {
        let self_path = self.to_path_buf();
        let base_path = base.to_path_buf();
        match diff_paths(self_path.as_str(), base_path.as_str()) {
            Some(rel) => Ok(rel),
            None => {
                let mut msg = copy_str("Failed to compute relative path from ");
                let a = self.to_string();
                push_str(&mut msg, a.as_str());
                push_str(&mut msg, " to ");
                let b = base.to_string();
                push_str(&mut msg, b.as_str());
                Err(custom_error(msg))
            }
        }
    }

    /// Whether two paths are the same.
    pub fn same_as(&self, other: &VirtPath) -> (r: bool)
        ensures
            r == (self@ == other@),
    {
        str_eq(self.name.as_str(), other.name.as_str())
            && str_eq(self.root.as_str(), other.root.as_str())
            && strings_eq(&self.locked_parts, &other.locked_parts)
            && strings_eq(&self.parts, &other.parts)
    }
}

} // verus!

//! The pictures of a session: which are open, which one is selected, and what was opened
//! before.

use vstd::prelude::*;
use crate::single::Single;
use crate::text::{append_decimal, chars_of};

verus! {

/// The texts of a list.
pub open spec fn texts(list: Seq<String>) -> Seq<Seq<char>> {
    list.map_values(|s: String| s@)
}

/// The place of the first text that equals `text`, if any does.
pub fn position_of(list: &Vec<String>, text: &String) -> (r: Option<usize>)
    ensures
        match r {
            Some(i) => i < list@.len() && list@[i as int]@ == text@ && forall|k: int|
                0 <= k < i ==> #[trigger] list@[k]@ != text@,
            None => !texts(list@).contains(text@),
        },
{
    let mut i: usize = 0;
    while i < list.len()
        invariant
            i <= list.len(),
            forall|k: int| 0 <= k < i ==> #[trigger] list@[k]@ != text@,
        decreases list.len() - i,
    {
        if list[i] == *text {
            return Some(i);
        }
        i = i + 1;
    }
    proof {
        assert forall|k: int| 0 <= k < texts(list@).len() implies texts(list@)[k] != text@ by {
            assert(list@[k]@ != text@);
        }
    }
    None
}

/// Extensions of the files that can be opened.
pub open spec fn known_extensions() -> Seq<Seq<char>> {
    seq![
        "arw"@,
        "nef"@,
        "nrw"@,
        "cr2"@,
        "cr3"@,
        "crw"@,
        "dng"@,
        "raf"@,
        "orf"@,
        "rw2"@,
        "png"@,
        "jpeg"@,
        "jpg"@,
        "tiff"@,
        "tif"@,
    ]
}

/// Extensions of the files that can be opened.
pub fn import_extensions() -> (r: Vec<&'static str>)
    ensures
        r@.len() == known_extensions().len(),
        forall|i: int| 0 <= i < r@.len() ==> (#[trigger] r@[i])@ == known_extensions()[i],
{
    let mut v: Vec<&'static str> = Vec::new();
    v.push("arw");
    v.push("nef");
    v.push("nrw");
    v.push("cr2");
    v.push("cr3");
    v.push("crw");
    v.push("dng");
    v.push("raf");
    v.push("orf");
    v.push("rw2");
    v.push("png");
    v.push("jpeg");
    v.push("jpg");
    v.push("tiff");
    v.push("tif");
    v
}

/// The number of a character, with capitals of the Latin alphabet taken as small letters.
pub open spec fn small_code(c: char) -> nat {
    if 65 <= c as nat <= 90 {
        c as nat + 32
    } else {
        c as nat
    }
}

/// Whether two texts differ in nothing but the case of Latin letters.
pub open spec fn same_but_case(a: Seq<char>, b: Seq<char>) -> bool {
    &&& a.len() == b.len()
    &&& forall|i: int| 0 <= i < a.len() ==> small_code(#[trigger] a[i]) == small_code(b[i])
}

fn code_of(c: char) -> (r: u32)
    ensures
        r == small_code(c),
{
    let n: u32 = c as u32;
    if 65 <= n && n <= 90 {
        n + 32
    } else {
        n
    }
}

fn equal_but_case(a: &Vec<char>, b: &Vec<char>) -> (r: bool)
    ensures
        r == same_but_case(a@, b@),
{
    if a.len() != b.len() {
        return false;
    }
    let mut i: usize = 0;
    while i < a.len()
        invariant
            i <= a.len(),
            a.len() == b.len(),
            forall|k: int| 0 <= k < i ==> small_code(#[trigger] a@[k]) == small_code(b@[k]),
        decreases a.len() - i,
    {
        if code_of(a[i]) != code_of(b[i]) {
            return false;
        }
        i = i + 1;
    }
    true
}

/// Whether a file with this extension can be opened.
pub open spec fn importable(extension: Option<Seq<char>>) -> bool {
    match extension {
        Some(e) => exists|k: int|
            0 <= k < known_extensions().len() && same_but_case(e, #[trigger] known_extensions()[k]),
        None => false,
    }
}

/// Place of an extension among those that can be opened, in whatever case it is written.
pub fn extension_place(extension: &str) -> (r: Option<usize>)
    ensures
        match r {
            Some(k) => k < known_extensions().len() && same_but_case(
                extension@,
                known_extensions()[k as int],
            ) && forall|j: int|
                0 <= j < k ==> !same_but_case(extension@, #[trigger] known_extensions()[j]),
            None => !importable(Some(extension@)),
        },
{
    let chars: Vec<char> = chars_of(extension);
    let known: Vec<&'static str> = import_extensions();
    let mut i: usize = 0;
    while i < known.len()
        invariant
            i <= known.len(),
            chars@ == extension@,
            known@.len() == known_extensions().len(),
            forall|j: int|
                0 <= j < known@.len() ==> (#[trigger] known@[j])@ == known_extensions()[j],
            forall|j: int|
                0 <= j < i ==> !same_but_case(extension@, #[trigger] known_extensions()[j]),
        decreases known.len() - i,
    {
        let one: Vec<char> = chars_of(known[i]);
        if equal_but_case(&chars, &one) {
            return Some(i);
        }
        i = i + 1;
    }
    None
}

/// How many of the extensions that can be opened are those of sensor data; they come first.
pub const RAW_EXTENSIONS: usize = 10;

/// Whether a file with this extension holds sensor data, in whatever case it is written.
pub fn is_raw_file(extension: Option<&str>) -> (r: bool)
    ensures
        r == (extension matches Some(e) && exists|k: int|
            0 <= k < RAW_EXTENSIONS && same_but_case(e@, #[trigger] known_extensions()[k])),
{
    match extension {
        None => false,
        Some(e) => match extension_place(e) {
            None => false,
            Some(k) => {
                assert(same_but_case(e@, known_extensions()[k as int]));
                k < RAW_EXTENSIONS
            },
        },
    }
}

/// Whether a file with this extension can be opened, in whatever case it is written.
pub fn is_importable_image(extension: Option<&str>) -> (r: bool)
    ensures
        r == importable(
            match extension {
                Some(e) => Some(e@),
                None => None,
            },
        ),
{
    match extension {
        None => false,
        Some(e) => match extension_place(e) {
            None => false,
            Some(k) => {
                assert(same_but_case(e@, known_extensions()[k as int]));
                true
            },
        },
    }
}

/// The pictures that are open, by their paths, and the one that is selected.
pub struct Roll {
    pub paths: Vec<String>,
    pub selected: Option<usize>,
}

/// Paths in their order, with those of `new` behind that are not there yet.
pub open spec fn with_added(paths: Seq<Seq<char>>, new: Seq<Seq<char>>) -> Seq<Seq<char>>
    decreases new.len(),
{
    if new.len() == 0 {
        paths
    } else {
        let before = with_added(paths, new.drop_last());
        if before.contains(new.last()) {
            before
        } else {
            before.push(new.last())
        }
    }
}

impl Roll {
    pub open spec fn names(self) -> Seq<Seq<char>> {
        texts(self.paths@)
    }

    /// What is selected is open.
    pub open spec fn wf(self) -> bool {
        self.selected matches Some(i) ==> i < self.paths@.len()
    }

    /// No path is open twice.
    pub open spec fn distinct(self) -> bool {
        self.names().no_duplicates()
    }

    pub fn empty() -> (r: Roll)
        ensures
            r.wf(),
            r.distinct(),
            r.paths@.len() == 0,
            r.selected is None,
    {
        Roll { paths: Vec::new(), selected: None }
    }

    /// The pictures of a project, in its order, with the first one selected.
    pub fn of_project(paths: Vec<String>) -> (r: Roll)
        ensures
            r.wf(),
            r.paths@ == paths@,
            r.selected == if paths@.len() == 0 {
                None
            } else {
                Some(0usize)
            },
    {
        let selected: Option<usize> = if paths.len() == 0 {
            None
        } else {
            Some(0)
        };
        Roll { paths, selected }
    }

    /// Opens those of the paths that are not open yet, and tells how many. The first one is
    /// selected where nothing was.
    pub fn add_image_paths(&mut self, new: &Vec<String>) -> (r: usize)
        requires
            old(self).wf(),
        ensures
            final(self).wf(),
            old(self).distinct() ==> final(self).distinct(),
            final(self).names() == with_added(old(self).names(), texts(new@)),
            r == final(self).paths@.len() - old(self).paths@.len(),
            final(self).selected == if old(self).selected is None && r > 0 {
                Some(old(self).paths@.len() as usize)
            } else {
                old(self).selected
            },
    {
        let start: usize = self.paths.len();
        let ghost begun = self.names();
        let ghost apart = self.distinct();
        let ghost chosen = self.selected;
        let mut i: usize = 0;
        while i < new.len()
            invariant
                i <= new.len(),
                start == begun.len(),
                start <= self.paths@.len(),
                self.wf(),
                apart ==> self.distinct(),
                self.names() == with_added(begun, texts(new@).take(i as int)),
                chosen matches Some(c) ==> c < start,
                self.selected == if chosen is None && self.paths@.len() > start {
                    Some(start)
                } else {
                    chosen
                },
            decreases new.len() - i,
        {
            let ghost names = self.names();
            proof {
                assert(texts(new@).take(i + 1).drop_last() =~= texts(new@).take(i as int));
                assert(texts(new@).take(i + 1).last() == new@[i as int]@);
            }
            if let Some(k) = position_of(&self.paths, &new[i]) {
                proof {
                    assert(names[k as int] == new@[i as int]@);
                }
            } else {
                self.paths.push(new[i].clone());
                proof {
                    assert(self.names() =~= names.push(new@[i as int]@));
                    assert forall|a: int, b: int|
                        apart && 0 <= a < b < self.names().len() implies self.names()[a]
                        != self.names()[b] by {
                        if b == names.len() {
                            assert(names[a] != new@[i as int]@);
                        } else {
                            assert(names[a] != names[b]);
                        }
                    }
                }
                if self.selected.is_none() {
                    self.selected = Some(self.paths.len() - 1);
                }
            }
            i = i + 1;
        }
        proof {
            assert(texts(new@).take(new@.len() as int) =~= texts(new@));
        }
        self.paths.len() - start
    }

    pub open spec fn selected_after(self, i: usize) -> Option<usize> {
        match self.selected {
            None => None,
            Some(s) => if s == i {
                None
            } else if s > i {
                Some((s - 1) as usize)
            } else {
                Some(s)
            },
        }
    }

    /// Closes a picture. The selected one stays selected, unless it was the one.
    pub fn remove(&mut self, i: usize)
        requires
            old(self).wf(),
            i < old(self).paths@.len(),
        ensures
            final(self).wf(),
            old(self).distinct() ==> final(self).distinct(),
            final(self).paths@ == old(self).paths@.remove(i as int),
            final(self).selected == old(self).selected_after(i),
    {
        let ghost names = self.names();
        self.paths.remove(i);
        match self.selected {
            Some(s) => {
                if s == i {
                    self.selected = None;
                } else if s > i {
                    self.selected = Some(s - 1);
                }
            },
            None => {},
        }
        proof {
            assert(self.names() =~= names.remove(i as int));
            assert forall|a: int, b: int|
                old(self).distinct() && 0 <= a < b < self.names().len() implies self.names()[a]
                != self.names()[b] by {
                let x = if a < i {
                    a
                } else {
                    a + 1
                };
                let y = if b < i {
                    b
                } else {
                    b + 1
                };
                assert(names[x] != names[y]);
            }
        }
    }

    /// The picture that is selected.
    pub open spec fn chosen(self) -> Option<Seq<char>> {
        match self.selected {
            Some(i) => Some(self.names()[i as int]),
            None => None,
        }
    }
}

/// Closing a picture leaves the selection on the picture that it was on.
pub proof fn selection_follows_its_picture(before: Roll, after: Roll, i: usize)
    requires
        before.wf(),
        i < before.paths@.len(),
        after.paths@ == before.paths@.remove(i as int),
        after.selected == before.selected_after(i),
    ensures
        before.selected != Some(i) ==> after.chosen() == before.chosen(),
        before.selected == Some(i) ==> after.chosen() is None,
{
}

/// How many pictures are open, in words.
pub fn file_count_text(count: usize) -> (r: String)
    ensures
        r@ == crate::text::decimal(count as nat) + " file(s)"@,
{
    let mut out: String = String::new();
    append_decimal(&mut out, count as u64);
    out.append(" file(s)");
    proof {
        assert(out@ =~= crate::text::decimal(count as nat) + " file(s)"@);
    }
    out
}

/// How many pictures of a project could be opened, in words.
pub fn loaded_text(loaded: usize, missing: usize) -> (r: String)
    requires
        loaded + missing <= usize::MAX,
    ensures
        r@ == if missing == 0 {
            "Loaded "@ + crate::text::decimal(loaded as nat) + " image(s)"@
        } else {
            "Loaded "@ + crate::text::decimal(loaded as nat) + " of "@ + crate::text::decimal(
                (loaded + missing) as nat,
            ) + " images ("@ + crate::text::decimal(missing as nat) + " missing)"@
        },
{
    let mut out: String = "Loaded ".to_owned();
    append_decimal(&mut out, loaded as u64);
    if missing == 0 {
        out.append(" image(s)");
    } else {
        out.append(" of ");
        append_decimal(&mut out, (loaded + missing) as u64);
        out.append(" images (");
        append_decimal(&mut out, missing as u64);
        out.append(" missing)");
    }
    out
}

/// Longest name that a card of the strip shows in full.
pub const NAME_MAX_CHARS: usize = 10;

/// A file name as the strip shows it: cut after ten characters where it is longer.
pub fn strip_name(name: &str) -> (r: String)
    ensures
        r@ == if name@.len() > NAME_MAX_CHARS {
            name@.take(NAME_MAX_CHARS as int) + "..."@
        } else {
            name@
        },
{
    if name.unicode_len() > NAME_MAX_CHARS {
        let mut out: String = name.substring_char(0, NAME_MAX_CHARS).to_owned();
        out.append("...");
        proof {
            assert(name@.subrange(0, NAME_MAX_CHARS as int) =~= name@.take(NAME_MAX_CHARS as int));
        }
        out
    } else {
        name.to_owned()
    }
}

/// How many projects are remembered.
pub const RECENT_PROJECTS_MAX: usize = 5;

/// A list without a text.
pub open spec fn without(list: Seq<Seq<char>>, text: Seq<char>) -> Seq<Seq<char>>
    decreases list.len(),
{
    if list.len() == 0 {
        list
    } else {
        let before = without(list.drop_last(), text);
        if list.last() == text {
            before
        } else {
            before.push(list.last())
        }
    }
}

/// At most as many as are remembered.
pub open spec fn at_most_recent(list: Seq<Seq<char>>) -> Seq<Seq<char>> {
    if list.len() > RECENT_PROJECTS_MAX {
        list.take(RECENT_PROJECTS_MAX as int)
    } else {
        list
    }
}

/// The list once a project has been opened or saved.
pub open spec fn remembered(list: Seq<Seq<char>>, path: Seq<char>) -> Seq<Seq<char>> {
    at_most_recent(seq![path] + without(list, path))
}

fn retain_not(list: &Vec<String>, text: &String) -> (r: Vec<String>)
    ensures
        texts(r@) == without(texts(list@), text@),
{
    let mut out: Vec<String> = Vec::new();
    let mut i: usize = 0;
    proof {
        assert(texts(list@).take(0) =~= Seq::<Seq<char>>::empty());
        assert(texts(out@) =~= Seq::<Seq<char>>::empty());
    }
    while i < list.len()
        invariant
            i <= list.len(),
            texts(out@) == without(texts(list@).take(i as int), text@),
        decreases list.len() - i,
    {
        proof {
            assert(texts(list@).take(i + 1).drop_last() =~= texts(list@).take(i as int));
            assert(texts(list@).take(i + 1).last() == list@[i as int]@);
        }
        if list[i] != *text {
            let ghost before = texts(out@);
            out.push(list[i].clone());
            proof {
                assert(texts(out@) =~= before.push(list@[i as int]@));
            }
        }
        i = i + 1;
    }
    proof {
        assert(texts(list@).take(list@.len() as int) =~= texts(list@));
    }
    out
}

/// Puts a project at the head of the list of recent ones. It stands there once, and the oldest
/// one leaves a list that is full.
pub fn remember_recent_project(list: &Vec<String>, path: &String) -> (r: Vec<String>)
    ensures
        texts(r@) == remembered(texts(list@), path@),
{
    let mut rest: Vec<String> = retain_not(list, path);
    let ghost kept = texts(rest@);
    rest.insert(0, path.clone());
    proof {
        assert(texts(rest@) =~= seq![path@] + kept);
    }
    if rest.len() > RECENT_PROJECTS_MAX {
        let ghost full = texts(rest@);
        rest.truncate(RECENT_PROJECTS_MAX);
        proof {
            assert(texts(rest@) =~= full.take(RECENT_PROJECTS_MAX as int));
        }
    }
    rest
}

/// Takes a project off the list of recent ones, under the path that was tried and under the
/// one that it stands for.
pub fn forget_recent_project(list: &Vec<String>, path: &String, canonical: Option<&String>) -> (r:
    Vec<String>)
    ensures
        texts(r@) == match canonical {
            Some(c) => without(without(texts(list@), path@), c@),
            None => without(texts(list@), path@),
        },
{
    let rest: Vec<String> = retain_not(list, path);
    match canonical {
        Some(c) => retain_not(&rest, c),
        None => rest,
    }
}

proof fn lemma_without(list: Seq<Seq<char>>, text: Seq<char>)
    ensures
        !without(list, text).contains(text),
        forall|x: Seq<char>| #[trigger]
            without(list, text).contains(x) <==> list.contains(x) && x != text,
        list.no_duplicates() ==> without(list, text).no_duplicates(),
        without(list, text).len() <= list.len(),
    decreases list.len(),
{
    if list.len() > 0 {
        let head = list.drop_last();
        lemma_without(head, text);
        let w = without(list, text);
        let before = without(head, text);
        assert forall|x: Seq<char>| #[trigger] w.contains(x) <==> list.contains(x) && x
            != text by {
            if w.contains(x) {
                let i = choose|i: int| 0 <= i < w.len() && w[i] == x;
                if i < before.len() {
                    assert(before[i] == x);
                    assert(before.contains(x));
                    let j = choose|j: int| 0 <= j < head.len() && head[j] == x;
                    assert(list[j] == x);
                } else {
                    assert(list[list.len() - 1] == x);
                }
            }
            if list.contains(x) && x != text {
                let j = choose|j: int| 0 <= j < list.len() && list[j] == x;
                if j < head.len() {
                    assert(head[j] == x);
                    assert(before.contains(x));
                    let i = choose|i: int| 0 <= i < before.len() && before[i] == x;
                    assert(w[i] == x);
                } else {
                    assert(w[w.len() - 1] == x);
                }
            }
        }
        if list.no_duplicates() {
            assert(head.no_duplicates());
            if list.last() != text {
                assert(!head.contains(list.last())) by {
                    if head.contains(list.last()) {
                        let j = choose|j: int| 0 <= j < head.len() && head[j] == list.last();
                        assert(list[j] == list[list.len() - 1]);
                    }
                }
                assert(!before.contains(list.last()));
                assert forall|a: int, b: int| 0 <= a < b < w.len() implies w[a] != w[b] by {
                    if b == before.len() {
                        assert(before.contains(before[a]));
                    }
                }
            }
        }
    }
}

/// A project that was opened or saved stands at the head of the list, no project stands in it
/// twice, the others keep their order, and there are never more than five.
pub proof fn recent_projects_stay_in_order(list: Seq<Seq<char>>, path: Seq<char>)
    requires
        list.no_duplicates(),
    ensures
        remembered(list, path).len() > 0,
        remembered(list, path)[0] == path,
        remembered(list, path).no_duplicates(),
        remembered(list, path).len() <= RECENT_PROJECTS_MAX,
        remembered(list, path).skip(1).is_prefix_of(without(list, path)),
        forall|x: Seq<char>| #[trigger]
            remembered(list, path).contains(x) ==> x == path || list.contains(x),
{
    lemma_without(list, path);
    let w = without(list, path);
    let full = seq![path] + w;
    let r = remembered(list, path);
    assert(full[0] == path);
    assert forall|a: int, b: int| 0 <= a < b < r.len() implies r[a] != r[b] by {
        assert(r[a] == full[a] && r[b] == full[b]);
        if a == 0 {
            assert(w.contains(w[b - 1]));
        } else {
            assert(w[a - 1] != w[b - 1]);
        }
    }
    assert forall|x: Seq<char>| #[trigger] r.contains(x) implies x == path || list.contains(x) by {
        let i = choose|i: int| 0 <= i < r.len() && r[i] == x;
        assert(full[i] == x);
        if i > 0 {
            assert(w.contains(w[i - 1]));
        }
    }
    assert(r.skip(1) =~= w.subrange(0, r.len() - 1));
}

/// A project that was remembered and then forgotten is not on the list.
pub proof fn forgotten_projects_are_gone(list: Seq<Seq<char>>, path: Seq<char>)
    ensures
        !without(remembered(list, path), path).contains(path),
{
    lemma_without(remembered(list, path), path);
}

/// The name of a recent project in the menu: its file, or its whole path where that has none.
pub fn recent_project_label(file_name: Option<&str>, path: &str) -> (r: String)
    ensures
        r@ == match file_name {
            Some(n) => if n@.len() > 0 {
                n@
            } else {
                path@
            },
            None => path@,
        },
{
    match file_name {
        Some(n) => if n.is_empty() {
            path.to_owned()
        } else {
            n.to_owned()
        },
        None => path.to_owned(),
    }
}

/// The window at the start: four fifths of the screen, not below its least size, and not over
/// the screen.
pub fn startup_window_size(screen: Option<(Single, Single)>) -> (r: (Single, Single))
    ensures
        ({
            let (w, h) = match screen {
                Some(s) => s,
                None => (Single::whole(1440), Single::whole(900)),
            };
            r == (
                w.times(Single::ratio(4, 5)).larger(Single::whole(960)).smaller(w),
                h.times(Single::ratio(4, 5)).larger(Single::whole(640)).smaller(h),
            )
        }),
{
    let (w, h) = match screen {
        Some(s) => s,
        None => (Single::whole(1440), Single::whole(900)),
    };
    (
        w.times(Single::ratio(4, 5)).larger(Single::whole(960)).smaller(w),
        h.times(Single::ratio(4, 5)).larger(Single::whole(640)).smaller(h),
    )
}

} // verus!

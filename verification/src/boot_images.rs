//! Boot images: the program files found beside the kernel at boot. Everything
//! but init is found here by name when init asks.
use vstd::prelude::*;

use crate::text;

verus! {

pub const MAX_IMAGES: usize = 16;

pub const NAME_LEN: usize = 16;

/// One program file.
pub struct Image {
    pub name: Vec<u8>,
    pub data: Vec<u8>,
}

/// The images, in the order in which they were found.
pub struct BootImages {
    images: Vec<Image>,
}

pub open spec fn lower(b: u8) -> u8 {
    if 0x41 <= b <= 0x5A {
        (b + 32) as u8
    } else {
        b
    }
}

/// The names differ at most in the case of ASCII letters.
pub open spec fn same_name(a: Seq<u8>, b: Seq<u8>) -> bool {
    a.len() == b.len() && forall|i: int| 0 <= i < a.len() ==> lower(#[trigger] a[i]) == lower(b[i])
}

fn to_lower(b: u8) -> (r: u8)
    ensures
        r == lower(b),
{
    if 0x41 <= b && b <= 0x5A {
        b + 32
    } else {
        b
    }
}

fn names_match(a: &[u8], b: &[u8]) -> (r: bool)
    ensures
        r == same_name(a@, b@),
{
    if a.len() != b.len() {
        return false;
    }
    let mut i: usize = 0;
    while i < a.len()
        invariant
            i <= a@.len() == b@.len(),
            forall|j: int| 0 <= j < i ==> lower(#[trigger] a@[j]) == lower(b@[j]),
        decreases a@.len() - i,
    {
        if to_lower(a[i]) != to_lower(b[i]) {
            return false;
        }
        i = i + 1;
    }
    true
}

/// A file name of program files: ASCII, at most `NAME_LEN` long, ending in
/// `.ELF` in any case.
pub open spec fn is_image_name(name: Seq<u16>) -> bool {
    &&& 4 <= name.len() <= NAME_LEN
    &&& forall|i: int| 0 <= i < name.len() ==> #[trigger] name[i] < 0x80
    &&& name[name.len() - 4] == 0x2E
    &&& lower(name[name.len() - 3] as u8) == 0x65
    &&& lower(name[name.len() - 2] as u8) == 0x6C
    &&& lower(name[name.len() - 1] as u8) == 0x66
}

/// The bytes of a directory entry's name, if it names a program file.
pub fn image_name(name: &[u16]) -> (r: Option<Vec<u8>>)
    ensures
        match r {
            Some(bytes) => {
                &&& is_image_name(name@)
                &&& bytes@ == Seq::new(name@.len(), |i: int| name@[i] as u8)
            },
            None => !is_image_name(name@),
        },
{
    let mut bytes: Vec<u8> = Vec::new();
    let mut i: usize = 0;
    while i < name.len()
        invariant
            i <= name@.len(),
            i <= NAME_LEN,
            forall|j: int| 0 <= j < i ==> #[trigger] name@[j] < 0x80,
            bytes@ =~= Seq::new(i as nat, |j: int| name@[j] as u8),
        decreases name@.len() - i,
    {
        let c: u16 = name[i];
        if c >= 0x80 || i == NAME_LEN {
            return None;
        }
        bytes.push(c as u8);
        i = i + 1;
    }
    let n: usize = bytes.len();
    assert(bytes@ =~= Seq::new(name@.len(), |j: int| name@[j] as u8));
    if n < 4 {
        return None;
    }
    assert(forall|b: u8| #[trigger] lower(b) == 0x2E <==> b == 0x2E);
    if bytes[n - 4] == 0x2E && to_lower(bytes[n - 3]) == 0x65 && to_lower(bytes[n - 2]) == 0x6C
        && to_lower(bytes[n - 1]) == 0x66 {
        Some(bytes)
    } else {
        None
    }
}

/// The images as plain values: name and contents.
pub open spec fn found(images: Seq<(Seq<u8>, Seq<u8>)>, name: Seq<u8>, n: int) -> int
    decreases images.len() - n,
{
    if n >= images.len() {
        images.len() as int
    } else if same_name(images[n].0, name) {
        n
    } else {
        found(images, name, n + 1)
    }
}

impl BootImages {
    pub closed spec fn view(&self) -> Seq<(Seq<u8>, Seq<u8>)> {
        Seq::new(self.images@.len(), |i: int| (self.images@[i].name@, self.images@[i].data@))
    }

    /// The contents of the first image of that name.
    pub open spec fn spec_find(&self, name: Seq<u8>) -> Option<Seq<u8>> {
        let i = found(self@, name, 0);
        if i < self@.len() {
            Some(self@[i].1)
        } else {
            None
        }
    }

    pub fn new() -> (b: BootImages)
        ensures
            b@ == Seq::<(Seq<u8>, Seq<u8>)>::empty(),
    {
        let b = BootImages { images: Vec::new() };
        assert(b@ =~= Seq::<(Seq<u8>, Seq<u8>)>::empty());
        b
    }

    /// Adds an image. `false` says that the table is full and nothing was added.
    pub fn add(&mut self, name: Vec<u8>, data: Vec<u8>) -> (r: bool)
        ensures
            r == (old(self)@.len() < MAX_IMAGES),
            final(self)@ == if r {
                old(self)@.push((name@, data@))
            } else {
                old(self)@
            },
    {
        if self.images.len() >= MAX_IMAGES {
            return false;
        }
        self.images.push(Image { name, data });
        assert(self@ =~= old(self)@.push((name@, data@)));
        true
    }

    /// The image whose file name is `name`, in any case.
    pub fn find(&self, name: &[u8]) -> (r: Option<&[u8]>)
        ensures
            match r {
                Some(data) => self.spec_find(name@) == Some(data@),
                None => self.spec_find(name@) is None,
            },
    {
        let mut i: usize = 0;
        while i < self.images.len()
            invariant
                i <= self.images@.len(),
                found(self@, name@, 0) == found(self@, name@, i as int),
            decreases self.images@.len() - i,
        {
            assert(self@[i as int].0 == self.images@[i as int].name@);
            if names_match(self.images[i].name.as_slice(), name) {
                return Some(self.images[i].data.as_slice());
            }
            i = i + 1;
        }
        None
    }
}

/// An entry of the boot directory: its name, and what it holds, if it is a file
/// that could be read.
pub struct DirEntry {
    pub name: Vec<u16>,
    pub data: Option<Vec<u8>>,
}

/// The program files among the first `n` entries, as many as are kept.
pub open spec fn kept(entries: Seq<DirEntry>, n: int) -> Seq<(Seq<u8>, Seq<u8>)>
    decreases n,
{
    if n <= 0 {
        Seq::empty()
    } else {
        let before = kept(entries, n - 1);
        let e = entries[n - 1];
        if is_image_name(e.name@) && e.data is Some && before.len() < MAX_IMAGES {
            before.push((Seq::new(e.name@.len(), |i: int| e.name@[i] as u8), e.data.unwrap()@))
        } else {
            before
        }
    }
}

/// Keeps the program files of the boot directory.
pub fn load_all(entries: Vec<DirEntry>) -> (b: BootImages)
    ensures
        b@ == kept(entries@, entries@.len() as int),
{
    let ghost es = entries@;
    let mut images: BootImages = BootImages::new();
    let mut i: usize = 0;
    while i < entries.len()
        invariant
            i <= entries@.len(),
            entries@ == es,
            images@ == kept(es, i as int),
        decreases entries@.len() - i,
    {
        if let Some(name) = image_name(entries[i].name.as_slice()) {
            if let Some(data) = &entries[i].data {
                let _ = images.add(name, data.clone());
            }
        }
        i = i + 1;
    }
    images
}

/// A task that lives inside the kernel: its name and where it begins.
pub struct Builtin {
    pub name: Vec<u8>,
    pub entry: u64,
}

/// Where the built-in task `name` begins.
pub open spec fn spec_builtin(table: Seq<Builtin>, name: Seq<u8>, n: int) -> Option<u64>
    decreases table.len() - n,
{
    if n >= table.len() {
        None
    } else if table[n].name@ == name {
        Some(table[n].entry)
    } else {
        spec_builtin(table, name, n + 1)
    }
}

/// The entry point of the first built-in of that name.
pub fn builtin(table: &Vec<Builtin>, name: &[u8]) -> (r: Option<u64>)
    ensures
        r == spec_builtin(table@, name@, 0),
{
    let mut i: usize = 0;
    while i < table.len()
        invariant
            i <= table@.len(),
            spec_builtin(table@, name@, 0) == spec_builtin(table@, name@, i as int),
        decreases table@.len() - i,
    {
        if text::same_bytes(table[i].name.as_slice(), name) {
            return Some(table[i].entry);
        }
        i = i + 1;
    }
    None
}

/// Two bytes are the same letter, or the same byte.
pub open spec fn alike(a: u8, b: u8) -> bool {
    a == b || (a >= 0x41 && a <= 0x5A && b == a + 0x20) || (b >= 0x41 && b <= 0x5A && a == b
        + 0x20)
}

proof fn lemma_alike(a: u8, b: u8)
    ensures
        alike(a, b) <==> lower(a) == lower(b),
{
}

/// An image is found under its name in any case of its letters: the first one that
/// was kept under that name, and none where there is none.
pub proof fn law_find(images: BootImages, name: Seq<u8>, i: int)
    requires
        0 <= i < images@.len(),
        images@[i].0.len() == name.len(),
        forall|j: int| 0 <= j < name.len() ==> alike(#[trigger] images@[i].0[j], name[j]),
        forall|k: int|
            0 <= k < i ==> (#[trigger] images@[k]).0.len() != name.len() || exists|j: int|
                0 <= j < name.len() && !alike(images@[k].0[j], #[trigger] name[j]),
    ensures
        images.spec_find(name) == Some(images@[i].1),
{
    assert forall|j: int| 0 <= j < name.len() implies lower(#[trigger] images@[i].0[j]) == lower(
        name[j],
    ) by {
        lemma_alike(images@[i].0[j], name[j]);
    }
    assert(same_name(images@[i].0, name));
    assert forall|k: int| 0 <= k < i implies !same_name((#[trigger] images@[k]).0, name) by {
        if images@[k].0.len() == name.len() {
            let j = choose|j: int|
                0 <= j < name.len() && !alike(images@[k].0[j], #[trigger] name[j]);
            lemma_alike(images@[k].0[j], name[j]);
        }
    }
    lemma_found(images@, name, 0, i);
}

/// What is found stands under that name.
pub proof fn law_found_is_named(images: BootImages, name: Seq<u8>)
    ensures
        images.spec_find(name) matches Some(data) ==> exists|i: int|
            {
                &&& 0 <= i < images@.len()
                &&& (#[trigger] images@[i]).1 == data
                &&& images@[i].0.len() == name.len()
                &&& forall|j: int| 0 <= j < name.len() ==> alike(#[trigger] images@[i].0[j], name[j])
            },
{
    lemma_found_at(images@, name, 0);
    let i = found(images@, name, 0);
    if i < images@.len() {
        assert forall|j: int| 0 <= j < name.len() implies alike(
            #[trigger] images@[i].0[j],
            name[j],
        ) by {
            lemma_alike(images@[i].0[j], name[j]);
        }
    }
}

proof fn lemma_found(images: Seq<(Seq<u8>, Seq<u8>)>, name: Seq<u8>, n: int, i: int)
    requires
        0 <= n <= i < images.len(),
        same_name(images[i].0, name),
        forall|k: int| n <= k < i ==> !same_name((#[trigger] images[k]).0, name),
    ensures
        found(images, name, n) == i,
    decreases i - n,
{
    if n < i {
        assert(!same_name(images[n].0, name));
        lemma_found(images, name, n + 1, i);
    }
}

proof fn lemma_found_at(images: Seq<(Seq<u8>, Seq<u8>)>, name: Seq<u8>, n: int)
    requires
        0 <= n <= images.len(),
    ensures
        n <= found(images, name, n) <= images.len(),
        found(images, name, n) < images.len() ==> same_name(
            images[found(images, name, n)].0,
            name,
        ),
    decreases images.len() - n,
{
    if n < images.len() {
        lemma_found_at(images, name, n + 1);
    }
}

/// A directory entry is a program file exactly where its name is plain ASCII, at
/// most sixteen characters long, and ends in `.elf`, in any case of the letters.
pub proof fn law_program_files(name: Seq<u16>)
    ensures
        is_image_name(name) <==> {
            let n = name.len() as int;
            &&& 4 <= n <= 16
            &&& forall|i: int| 0 <= i < n ==> #[trigger] name[i] <= 127
            &&& name[n - 4] == '.' as u16
            &&& (name[n - 3] == 'e' as u16 || name[n - 3] == 'E' as u16)
            &&& (name[n - 2] == 'l' as u16 || name[n - 2] == 'L' as u16)
            &&& (name[n - 1] == 'f' as u16 || name[n - 1] == 'F' as u16)
        },
{
    if name.len() >= 4 {
        let n = name.len() as int;
        if forall|i: int| 0 <= i < n ==> #[trigger] name[i] <= 127 {
            assert(name[n - 3] < 0x80 && name[n - 2] < 0x80 && name[n - 1] < 0x80);
            assert(name[n - 3] as u8 == name[n - 3]);
            assert(name[n - 2] as u8 == name[n - 2]);
            assert(name[n - 1] as u8 == name[n - 1]);
        }
        if is_image_name(name) {
            assert(name[n - 3] < 0x80 && name[n - 2] < 0x80 && name[n - 1] < 0x80);
        }
    }
}

/// A program file that could be read is kept, with its name and contents, behind
/// those before it, while fewer than sixteen are kept; nothing else is.
pub proof fn law_program_files_are_kept(entries: Seq<DirEntry>, n: int)
    requires
        0 <= n < entries.len(),
    ensures
        ({
            let e = entries[n];
            let before = kept(entries, n);
            let after = kept(entries, n + 1);
            let taken = is_image_name(e.name@) && e.data is Some && before.len() < 16;
            &&& before.len() <= 16
            &&& taken ==> after.len() == before.len() + 1 && after.last().1 == e.data.unwrap()@
                && after.last().0.len() == e.name@.len() && (forall|i: int|
                0 <= i < e.name@.len() ==> #[trigger] after.last().0[i] == e.name@[i])
            &&& taken ==> after.drop_last() == before
            &&& !taken ==> after == before
        }),
    decreases n,
{
    if n > 0 {
        law_program_files_are_kept(entries, n - 1);
    }
    let e = entries[n];
    if is_image_name(e.name@) && e.data is Some && kept(entries, n).len() < 16 {
        let after = kept(entries, n + 1);
        assert forall|i: int| 0 <= i < e.name@.len() implies #[trigger] after.last().0[i]
            == e.name@[i] by {
            assert(e.name@[i] < 0x80);
        }
        assert(after.drop_last() =~= kept(entries, n));
    }
}

/// A built-in is found under exactly its own name.
pub proof fn law_builtin(table: Seq<Builtin>, name: Seq<u8>, n: int, i: int)
    requires
        0 <= n <= i < table.len(),
        table[i].name@ == name,
        forall|k: int| n <= k < i ==> (#[trigger] table[k]).name@ != name,
    ensures
        spec_builtin(table, name, n) == Some(table[i].entry),
    decreases i - n,
{
    if n < i {
        assert(table[n].name@ != name);
        law_builtin(table, name, n + 1, i);
    }
}

/// A name that no built-in has finds none.
pub proof fn law_no_builtin(table: Seq<Builtin>, name: Seq<u8>, n: int)
    requires
        0 <= n <= table.len(),
        forall|k: int| n <= k < table.len() ==> (#[trigger] table[k]).name@ != name,
    ensures
        spec_builtin(table, name, n) is None,
    decreases table.len() - n,
{
    if n < table.len() {
        assert(table[n].name@ != name);
        law_no_builtin(table, name, n + 1);
    }
}

} // verus!

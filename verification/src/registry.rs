//! The importer registry: which importer serves a (source format, target)
//! or (extension, target) pair.
//!
//! Importers are registered in order; when two claim the same key the
//! earlier registration wins. Guessing without a format hint or extension
//! succeeds only when a single importer serves the target; with several,
//! the ambiguity is reported with the candidate source formats.

use vstd::prelude::*;

use crate::placement::string_eq_str;

verus! {

/// What an importer declares about itself: its name, the source formats it
/// reads, the file extensions it recognizes, and the one target format it
/// produces.
pub struct ImporterMeta {
    /// Human-readable importer name.
    pub name: String,
    /// Source format names the importer accepts.
    pub formats: Vec<String>,
    /// File extensions the importer recognizes.
    pub extensions: Vec<String>,
    /// Target format the importer produces.
    pub target: String,
}

/// More than one importer could serve a target; the candidate source
/// formats are listed.
pub struct CannotDecideOnImporter {
    /// The source formats of the importers that serve the target.
    pub formats: Vec<String>,
    /// The target that was asked for.
    pub target: String,
}

/// Whether a list of strings holds one with the given view.
pub open spec fn contains_str(v: Seq<String>, s: Seq<char>) -> bool {
    exists|i: int| 0 <= i < v.len() && (#[trigger] v[i])@ == s
}

/// Whether a string list holds the given text.
pub fn vec_contains_string(v: &Vec<String>, s: &str) -> (r: bool)
    ensures
        r == contains_str(v@, s@),
{
    let mut i: usize = 0;
    while i < v.len()
        invariant
            i <= v@.len(),
            forall|j: int| 0 <= j < i ==> (#[trigger] v@[j])@ != s@,
        decreases v@.len() - i,
    {
        if string_eq_str(&v[i], s) {
            return true;
        }
        i = i + 1;
    }
    false
}

impl ImporterMeta {
    /// Whether this importer produces the given target.
    pub open spec fn spec_serves_target(self, target: Seq<char>) -> bool {
        self.target@ == target
    }

    /// Whether this importer reads the given source format.
    pub open spec fn spec_has_format(self, format: Seq<char>) -> bool {
        contains_str(self.formats@, format)
    }

    /// Whether this importer recognizes the given extension.
    pub open spec fn spec_has_extension(self, ext: Seq<char>) -> bool {
        contains_str(self.extensions@, ext)
    }
}

/// The registered importers, in registration order.
pub struct Importers {
    importers: Vec<ImporterMeta>,
}

impl Importers {
    /// The registered importers.
    pub closed spec fn spec_importers(self) -> Seq<ImporterMeta> {
        self.importers@
    }

    /// Whether some importer serves a target.
    pub open spec fn spec_has_target(self, target: Seq<char>) -> bool {
        exists|i: int|
            0 <= i < self.spec_importers().len() && (#[trigger] self.spec_importers()[i]).spec_serves_target(
                target,
            )
    }

    /// An empty registry.
    pub fn new() -> (r: Importers)
        ensures
            r.spec_importers().len() == 0,
    {
        Importers { importers: Vec::new() }
    }

    /// Registers one importer after all earlier ones; for a key both
    /// declare, the earlier importer keeps serving it.
    pub fn register_importer(&mut self, importer: ImporterMeta)
        ensures
            final(self).spec_importers() == old(self).spec_importers().push(importer),
    {
        self.importers.push(importer);
    }

    /// The number of registered importers.
    pub fn len(&self) -> (r: usize)
        ensures
            r == self.spec_importers().len(),
    {
        self.importers.len()
    }

    /// The importer registered at an index.
    pub fn importer(&self, i: usize) -> (r: &ImporterMeta)
        requires
            i < self.spec_importers().len(),
        ensures
            *r == self.spec_importers()[i as int],
    {
        &self.importers[i]
    }

    /// The first importer that reads the given source format into the
    /// given target, if any: a later importer never shadows an earlier one.
    pub fn get(&self, format: &str, target: &str) -> (r: Option<usize>)
        ensures
            match r {
                Some(i) => {
                    &&& i < self.spec_importers().len()
                    &&& self.spec_importers()[i as int].spec_serves_target(target@)
                    &&& self.spec_importers()[i as int].spec_has_format(format@)
                    &&& forall|j: int|
                        0 <= j < i ==> !((#[trigger] self.spec_importers()[j]).spec_serves_target(
                            target@,
                        ) && self.spec_importers()[j].spec_has_format(format@))
                },
                None => forall|j: int|
                    0 <= j < self.spec_importers().len() ==> !((
                    #[trigger] self.spec_importers()[j]).spec_serves_target(target@)
                        && self.spec_importers()[j].spec_has_format(format@)),
            },
    {
        let mut i: usize = 0;
        while i < self.importers.len()
            invariant
                i <= self.spec_importers().len(),
                forall|j: int|
                    0 <= j < i ==> !((#[trigger] self.spec_importers()[j]).spec_serves_target(target@)
                        && self.spec_importers()[j].spec_has_format(format@)),
            decreases self.spec_importers().len() - i,
        {
            if string_eq_str(&self.importers[i].target, target) && vec_contains_string(
                &self.importers[i].formats,
                format,
            ) {
                return Some(i);
            }
            i = i + 1;
        }
        None
    }

    /// The first importer serving the target that recognizes the given
    /// extension, if any.
    fn get_by_extension(&self, ext: &str, target: &str) -> (r: Option<usize>)
        ensures
            match r {
                Some(i) => {
                    &&& i < self.spec_importers().len()
                    &&& self.spec_importers()[i as int].spec_serves_target(target@)
                    &&& self.spec_importers()[i as int].spec_has_extension(ext@)
                    &&& forall|j: int|
                        0 <= j < i ==> !((#[trigger] self.spec_importers()[j]).spec_serves_target(
                            target@,
                        ) && self.spec_importers()[j].spec_has_extension(ext@))
                },
                None => forall|j: int|
                    0 <= j < self.spec_importers().len() ==> !((
                    #[trigger] self.spec_importers()[j]).spec_serves_target(target@)
                        && self.spec_importers()[j].spec_has_extension(ext@)),
            },
    {
        let mut i: usize = 0;
        while i < self.importers.len()
            invariant
                i <= self.spec_importers().len(),
                forall|j: int|
                    0 <= j < i ==> !((#[trigger] self.spec_importers()[j]).spec_serves_target(target@)
                        && self.spec_importers()[j].spec_has_extension(ext@)),
            decreases self.spec_importers().len() - i,
        {
            if string_eq_str(&self.importers[i].target, target) && vec_contains_string(
                &self.importers[i].extensions,
                ext,
            ) {
                return Some(i);
            }
            i = i + 1;
        }
        None
    }

    /// The first importer serving the target, and whether another one also
    /// serves it.
    fn first_for_target(&self, target: &str) -> (r: (Option<usize>, bool))
        ensures
            match r.0 {
                Some(i) => {
                    &&& i < self.spec_importers().len()
                    &&& self.spec_importers()[i as int].spec_serves_target(target@)
                    &&& forall|j: int|
                        0 <= j < i ==> !(#[trigger] self.spec_importers()[j]).spec_serves_target(
                            target@,
                        )
                },
                None => !self.spec_has_target(target@),
            },
            r.1 == exists|i: int, j: int|
                0 <= i < j < self.spec_importers().len() && (
                #[trigger] self.spec_importers()[i]).spec_serves_target(target@) && (
                #[trigger] self.spec_importers()[j]).spec_serves_target(target@),
    {
        let mut i: usize = 0;
        let mut first: Option<usize> = None;
        while i < self.importers.len()
            invariant
                i <= self.spec_importers().len(),
                match first {
                    Some(f) => {
                        &&& f < i
                        &&& self.spec_importers()[f as int].spec_serves_target(target@)
                        &&& forall|j: int|
                            0 <= j < f ==> !(#[trigger] self.spec_importers()[j]).spec_serves_target(
                                target@,
                            )
                        &&& forall|j: int|
                            f < j < i ==> !(#[trigger] self.spec_importers()[j]).spec_serves_target(
                                target@,
                            )
                    },
                    None => forall|j: int|
                        0 <= j < i ==> !(#[trigger] self.spec_importers()[j]).spec_serves_target(target@),
                },
            decreases self.spec_importers().len() - i,
        {
            if string_eq_str(&self.importers[i].target, target) {
                match first {
                    None => {
                        first = Some(i);
                    },
                    Some(f) => {
                        proof {
                            let fi = f as int;
                            let ii = i as int;
                            assert(exists|a: int, b: int|
                                0 <= a < b < self.spec_importers().len() && (
                                #[trigger] self.spec_importers()[a]).spec_serves_target(target@) && (
                                #[trigger] self.spec_importers()[b]).spec_serves_target(target@)) by {
                                assert(0 <= fi < ii < self.spec_importers().len() && (
                                self.spec_importers()[fi]).spec_serves_target(target@) && (
                                self.spec_importers()[ii]).spec_serves_target(target@));
                            }
                        }
                        return (Some(f), true);
                    },
                }
            }
            i = i + 1;
        }
        proof {
            if exists|a: int, b: int|
                0 <= a < b < self.spec_importers().len() && (
                #[trigger] self.spec_importers()[a]).spec_serves_target(target@) && (
                #[trigger] self.spec_importers()[b]).spec_serves_target(target@) {
                let (a, b) = choose|a: int, b: int|
                    0 <= a < b < self.spec_importers().len() && (
                    #[trigger] self.spec_importers()[a]).spec_serves_target(target@) && (
                    #[trigger] self.spec_importers()[b]).spec_serves_target(target@);
                assert(false);
            }
        }
        (first, false)
    }

    /// The distinct source formats of the importers serving a target, in
    /// registration order.
    fn target_formats(&self, target: &str) -> (r: Vec<String>)
        ensures
            forall|f: Seq<char>|
                #[trigger] contains_str(r@, f) <==> exists|i: int|
                    0 <= i < self.spec_importers().len() && (
                    #[trigger] self.spec_importers()[i]).spec_serves_target(target@)
                        && self.spec_importers()[i].spec_has_format(f),
    {
        let mut out: Vec<String> = Vec::new();
        let mut i: usize = 0;
        while i < self.importers.len()
            invariant
                i <= self.spec_importers().len(),
                forall|f: Seq<char>|
                    #[trigger] contains_str(out@, f) <==> exists|a: int|
                        0 <= a < i && (#[trigger] self.spec_importers()[a]).spec_serves_target(target@)
                            && self.spec_importers()[a].spec_has_format(f),
            decreases self.spec_importers().len() - i,
        {
            if string_eq_str(&self.importers[i].target, target) {
                let formats = &self.importers[i].formats;
                let mut k: usize = 0;
                while k < formats.len()
                    invariant
                        i < self.spec_importers().len(),
                        k <= formats@.len(),
                        formats@ == self.spec_importers()[i as int].formats@,
                        self.spec_importers()[i as int].spec_serves_target(target@),
                        forall|f: Seq<char>|
                            #[trigger] contains_str(out@, f) <==> (exists|a: int|
                                0 <= a < i && (#[trigger] self.spec_importers()[a]).spec_serves_target(
                                    target@,
                                ) && self.spec_importers()[a].spec_has_format(f)) || (exists|b: int|
                                0 <= b < k && (#[trigger] formats@[b])@ == f),
                    decreases formats@.len() - k,
                {
                    let ghost old_out = out@;
                    if !vec_contains_string(&out, formats[k].as_str()) {
                        out.push(formats[k].clone());
                        proof {
                            let ghost fk = formats@[k as int]@;
                            assert(out@.last()@ == fk) by {
                                assert(out@[out@.len() - 1] == formats@[k as int]);
                            }
                            assert forall|f: Seq<char>| #[trigger] contains_str(out@, f) implies
                                contains_str(old_out, f) || f == fk by {
                                let x = choose|x: int| 0 <= x < out@.len() && (#[trigger] out@[x])@ == f;
                                if x < out@.len() - 1 {
                                    assert(old_out[x]@ == f);
                                }
                            }
                            assert forall|f: Seq<char>| contains_str(old_out, f) implies
                                #[trigger] contains_str(out@, f) by {
                                let x = choose|x: int|
                                    0 <= x < old_out.len() && (#[trigger] old_out[x])@ == f;
                                assert(out@[x]@ == f);
                            }
                            assert(contains_str(out@, fk)) by {
                                assert(out@[out@.len() - 1]@ == fk);
                            }
                        }
                    }
                    proof {
                        let ghost fk = formats@[k as int]@;
                        assert(contains_str(out@, fk));
                        assert forall|f: Seq<char>|
                            (exists|b: int| 0 <= b < k + 1 && (#[trigger] formats@[b])@ == f) implies
                            contains_str(out@, f) || (exists|b: int|
                                0 <= b < k && (#[trigger] formats@[b])@ == f) by {
                            let b = choose|b: int| 0 <= b < k + 1 && (#[trigger] formats@[b])@ == f;
                            if b == k {
                                assert(contains_str(out@, f));
                            }
                        }
                    }
                    k = k + 1;
                }
                proof {
                    assert forall|f: Seq<char>| #[trigger] contains_str(out@, f) implies (exists|
                        a: int,
                    |
                        0 <= a < i + 1 && (#[trigger] self.spec_importers()[a]).spec_serves_target(
                            target@,
                        ) && self.spec_importers()[a].spec_has_format(f)) by {
                        if exists|b: int| 0 <= b < formats@.len() && (#[trigger] formats@[b])@ == f {
                            assert(self.spec_importers()[i as int].spec_has_format(f));
                        }
                    }
                    assert forall|f: Seq<char>|
                        (exists|a: int|
                            0 <= a < i + 1 && (#[trigger] self.spec_importers()[a]).spec_serves_target(
                                target@,
                            ) && self.spec_importers()[a].spec_has_format(f)) implies #[trigger] contains_str(
                        out@,
                        f,
                    ) by {
                        let a = choose|a: int|
                            0 <= a < i + 1 && (#[trigger] self.spec_importers()[a]).spec_serves_target(
                                target@,
                            ) && self.spec_importers()[a].spec_has_format(f);
                        if a == i {
                            let b = choose|b: int|
                                0 <= b < formats@.len() && (#[trigger] formats@[b])@ == f;
                            assert(0 <= b < formats@.len() && formats@[b]@ == f);
                        }
                    }
                }
            } else {
                proof {
                    assert forall|f: Seq<char>| #[trigger] contains_str(out@, f) implies (exists|
                        a: int,
                    |
                        0 <= a < i + 1 && (#[trigger] self.spec_importers()[a]).spec_serves_target(
                            target@,
                        ) && self.spec_importers()[a].spec_has_format(f)) by {
                        let a = choose|a: int|
                            0 <= a < i && (#[trigger] self.spec_importers()[a]).spec_serves_target(
                                target@,
                            ) && self.spec_importers()[a].spec_has_format(f);
                        assert(0 <= a < i + 1 && self.spec_importers()[a].spec_serves_target(target@)
                            && self.spec_importers()[a].spec_has_format(f));
                    }
                    assert forall|f: Seq<char>|
                        (exists|a: int|
                            0 <= a < i + 1 && (#[trigger] self.spec_importers()[a]).spec_serves_target(
                                target@,
                            ) && self.spec_importers()[a].spec_has_format(f)) implies #[trigger] contains_str(
                        out@,
                        f,
                    ) by {
                        let a = choose|a: int|
                            0 <= a < i + 1 && (#[trigger] self.spec_importers()[a]).spec_serves_target(
                                target@,
                            ) && self.spec_importers()[a].spec_has_format(f);
                        assert(a < i);
                    }
                }
            }
            i = i + 1;
        }
        out
    }

    /// Guesses the importer for an optional file extension and a target.
    ///
    /// With an extension, the first importer serving the target that
    /// recognizes it wins. Without one, a single importer serving the
    /// target wins; several importers serving it are reported as ambiguous
    /// with exactly their source formats; none yields no importer.
    pub fn guess(&self, extension: Option<&str>, target: &str) -> (r: Result<
        Option<usize>,
        CannotDecideOnImporter,
    >)
        ensures
            match r {
                Ok(Some(i)) => {
                    &&& i < self.spec_importers().len()
                    &&& self.spec_importers()[i as int].spec_serves_target(target@)
                    &&& match extension {
                        Some(e) => self.spec_importers()[i as int].spec_has_extension(e@),
                        None => !(exists|a: int, b: int|
                            0 <= a < b < self.spec_importers().len() && (
                            #[trigger] self.spec_importers()[a]).spec_serves_target(target@) && (
                            #[trigger] self.spec_importers()[b]).spec_serves_target(target@)),
                    }
                },
                Ok(None) => match extension {
                    Some(e) => forall|j: int|
                        0 <= j < self.spec_importers().len() ==> !((
                        #[trigger] self.spec_importers()[j]).spec_serves_target(target@)
                            && self.spec_importers()[j].spec_has_extension(e@)),
                    None => !self.spec_has_target(target@),
                },
                Err(e) => {
                    &&& extension is None
                    &&& e.target@ == target@
                    &&& exists|a: int, b: int|
                        0 <= a < b < self.spec_importers().len() && (
                        #[trigger] self.spec_importers()[a]).spec_serves_target(target@) && (
                        #[trigger] self.spec_importers()[b]).spec_serves_target(target@)
                    &&& forall|f: Seq<char>|
                        #[trigger] contains_str(e.formats@, f) <==> exists|i: int|
                            0 <= i < self.spec_importers().len() && (
                            #[trigger] self.spec_importers()[i]).spec_serves_target(target@)
                                && self.spec_importers()[i].spec_has_format(f)
                },
            },
    {
        match extension {
            Some(ext) => Ok(self.get_by_extension(ext, target)),
            None => {
                let (first, multiple) = self.first_for_target(target);
                match first {
                    None => Ok(None),
                    Some(i) => {
                        if multiple {
                            Err(
                                CannotDecideOnImporter {
                                    formats: self.target_formats(target),
                                    target: target.to_owned(),
                                },
                            )
                        } else {
                            Ok(Some(i))
                        }
                    },
                }
            },
        }
    }
}

} // verus!

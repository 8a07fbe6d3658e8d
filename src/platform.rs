use vstd::prelude::*;

use crate::generator::{AArch64AssemblyGenerator, AssemblyGenerator};
use crate::ir::{assembly_for, data_view, gen_tasks_view, CodeSegment, DataView, Executable, GenTaskView, GenerateFault};

verus! {

/// A platform and what it supports.
pub struct Platform<G: AssemblyGenerator> {
    /// Writes assembly for this platform.
    pub assembly_generator: G,
    /// The width of pointers, in bytes.
    pub pointer_width: u8,
    /// The least memory the platform has, in bytes.
    pub memory_size_minimum: u128,
    /// The most memory the platform has, in bytes.
    pub memory_size_maximum: u128,
    /// A name for people.
    pub friendly_name: &'static str,
    /// A name that tells this platform from the others.
    pub technical_name: &'static str,
    /// Assembly that begins the file.
    pub assembly_header: &'static str,
    /// Assembly that runs when the program completes.
    pub assembly_exit: &'static str,
    /// Assembly before the entry point's code, its label included.
    pub assembly_entry: &'static str,
    /// The capabilities the platform offers, each with the assembly that provides it.
    pub features: Vec<(&'static str, &'static str)>,
}

/// MacOS on 64-bit ARM processors.
pub fn get_this() -> (r: Platform<AArch64AssemblyGenerator>)
    ensures
        r.pointer_width == 8,
        r.memory_size_minimum == 8 * 1024 * 1024 * 1024,
        r.memory_size_maximum == 192 * 1024 * 1024 * 1024,
        r.friendly_name@ == "MacOS"@,
        r.technical_name@ == "AArch64-based MacOS"@,
        r.features@.len() == 1,
        r.features@[0].0@ == "stdout"@,
{
    let mut features: Vec<(&'static str, &'static str)> = Vec::new();
    features.push(
        (
            "stdout",
            "stdout:\nmov x2, x1 // move arguments up one\nmov x1, x0\nmov X0, #1 // 1 = fd for stdout\nmov X16, #4 // unix write system call\n// x1 = ptr to str, x2 = len of str\nsvc #0 // Call kernel to output the string\nret\n",
        ),
    );
    Platform {
        assembly_generator: AArch64AssemblyGenerator::new(),
        pointer_width: 8,
        memory_size_minimum: 1024 * 1024 * 1024 * 8,
        memory_size_maximum: 1024 * 1024 * 1024 * 192,
        friendly_name: "MacOS",
        technical_name: "AArch64-based MacOS",
        assembly_header: ".global _start\n",
        assembly_entry: "_start:\n",
        assembly_exit: "mov x0, #0\nmov x16, #1\nsvc #0\n",
        features,
    }
}

/// Every platform that the compiler targets.
pub fn get_all_platforms() -> (r: Vec<Platform<AArch64AssemblyGenerator>>)
    ensures
        r@.len() == 1,
        r@[0].technical_name@ == "AArch64-based MacOS"@,
{
    let mut all = Vec::new();
    all.push(get_this());
    all
}

/// Why a program could not be written as assembly for a platform.
#[derive(Debug, Clone, Copy, PartialEq, Eq, Structural)]
pub enum PlatformFault {
    /// A task could not be written.
    Generate(GenerateFault),
    /// A data entry's initial bytes do not match its size.
    DataSizeMismatch,
    /// The program needs a capability that the platform does not offer.
    MissingFeature,
}

/// The assembly of `tasks`, one after another.
pub open spec fn tasks_text<G: AssemblyGenerator>(tasks: Seq<GenTaskView>) -> Result<Seq<char>, PlatformFault>
    decreases tasks.len(),
{
    if tasks.len() == 0 {
        Ok(Seq::empty())
    } else {
        match tasks_text::<G>(tasks.drop_last()) {
            Err(f) => Err(f),
            Ok(t) => match assembly_for::<G>(tasks.last()) {
                Ok(x) => Ok(t + x),
                Err(f) => Err(PlatformFault::Generate(f)),
            },
        }
    }
}

/// The assembly of code segments: each one's label, then its tasks.
pub open spec fn sections_text<G: AssemblyGenerator>(sections: Seq<CodeSegment>) -> Result<Seq<char>, PlatformFault>
    decreases sections.len(),
{
    if sections.len() == 0 {
        Ok(Seq::empty())
    } else {
        match sections_text::<G>(sections.drop_last()) {
            Err(f) => Err(f),
            Ok(t) => match tasks_text::<G>(gen_tasks_view(sections.last().tasks@)) {
                Ok(x) => Ok(t + G::spec_label(sections.last().label@) + x),
                Err(f) => Err(f),
            },
        }
    }
}

/// The assembly of data entries: initial bytes where given, else zeros of the entry's size.
pub open spec fn data_text<G: AssemblyGenerator>(data: Seq<DataView>) -> Result<Seq<char>, PlatformFault>
    decreases data.len(),
{
    if data.len() == 0 {
        Ok(Seq::empty())
    } else {
        match data_text::<G>(data.drop_last()) {
            Err(f) => Err(f),
            Ok(t) => {
                let d = data.last();
                match d.default {
                    Some(b) => if b.len() != d.size {
                        Err(PlatformFault::DataSizeMismatch)
                    } else {
                        Ok(t + G::spec_data(d.label, b))
                    },
                    None => Ok(t + G::spec_data(d.label, Seq::new(d.size, |i: int| 0u8))),
                }
            },
        }
    }
}

/// The assembly of every feature named `req`, in order.
pub open spec fn feature_text(req: Seq<char>, features: Seq<(Seq<char>, Seq<char>)>) -> Seq<char>
    decreases features.len(),
{
    if features.len() == 0 {
        Seq::empty()
    } else {
        feature_text(req, features.drop_last()) + if features.last().0 == req {
            features.last().1
        } else {
            Seq::empty()
        }
    }
}

/// The assembly of the features that `reqs` name; each must be offered.
pub open spec fn features_text(reqs: Seq<Seq<char>>, features: Seq<(Seq<char>, Seq<char>)>) -> Result<
    Seq<char>,
    PlatformFault,
>
    decreases reqs.len(),
{
    if reqs.len() == 0 {
        Ok(Seq::empty())
    } else {
        match features_text(reqs.drop_last(), features) {
            Err(f) => Err(f),
            Ok(t) => if exists|i: int| 0 <= i < features.len() && features[i].0 == reqs.last() {
                Ok(t + feature_text(reqs.last(), features))
            } else {
                Err(PlatformFault::MissingFeature)
            },
        }
    }
}

impl<G: AssemblyGenerator> Platform<G> {
    /// The features as text.
    pub open spec fn features_view(&self) -> Seq<(Seq<char>, Seq<char>)> {
        self.features@.map_values(|f: (&'static str, &'static str)| (f.0@, f.1@))
    }

    /// The whole assembly file for `program`: the header, the code segments, the data, the
    /// features the program needs, the entry point and its tasks, and the exit code.
    pub fn generate_assembly(&self, program: &Executable) -> (r: Result<String, PlatformFault>)
        ensures
            match sections_text::<G>(program.code_sections@) {
                Err(f) => r == Err::<String, PlatformFault>(f),
                Ok(sections) => match data_text::<G>(data_view(program.data@)) {
                    Err(f) => r == Err::<String, PlatformFault>(f),
                    Ok(data) => match features_text(
                        program.platform_requirements@.map_values(|s: String| s@),
                        self.features_view(),
                    ) {
                        Err(f) => r == Err::<String, PlatformFault>(f),
                        Ok(features) => match tasks_text::<G>(gen_tasks_view(program.entry_point.tasks@)) {
                            Err(f) => r == Err::<String, PlatformFault>(f),
                            Ok(entry) => r is Ok && r->Ok_0@ == self.assembly_header@ + sections + data
                                + features + self.assembly_entry@ + entry + self.assembly_exit@,
                        },
                    },
                },
            },
    {
        let mut master_output = String::from_str(self.assembly_header);
        match sections_assembly::<G>(&program.code_sections) {
            Ok(text) => master_output.append(text.as_str()),
            Err(f) => {
                return Err(f);
            },
        }
        match data_assembly::<G>(&program.data) {
            Ok(text) => master_output.append(text.as_str()),
            Err(f) => {
                return Err(f);
            },
        }
        match self.features_assembly(&program.platform_requirements) {
            Ok(text) => master_output.append(text.as_str()),
            Err(f) => {
                return Err(f);
            },
        }
        master_output.append(self.assembly_entry);
        match tasks_assembly::<G>(&program.entry_point.tasks) {
            Ok(text) => master_output.append(text.as_str()),
            Err(f) => {
                return Err(f);
            },
        }
        master_output.append(self.assembly_exit);
        Ok(master_output)
    }

    /// The assembly of the features that `reqs` name.
    fn features_assembly(&self, reqs: &Vec<String>) -> (r: Result<String, PlatformFault>)
        ensures
            match features_text(reqs@.map_values(|s: String| s@), self.features_view()) {
                Ok(t) => r is Ok && r->Ok_0@ == t,
                Err(f) => r == Err::<String, PlatformFault>(f),
            },
    {
        let ghost rv = reqs@.map_values(|s: String| s@);
        let ghost fv = self.features_view();
        let mut out = String::new();
        let mut k: usize = 0;
        assert(rv.take(0) =~= Seq::<Seq<char>>::empty());
        while k < reqs.len()
            invariant
                k <= reqs.len(),
                rv == reqs@.map_values(|s: String| s@),
                fv == self.features_view(),
                features_text(rv.take(k as int), fv) == Ok::<Seq<char>, PlatformFault>(out@),
            decreases reqs.len() - k,
        {
            proof {
                assert(rv.take(k + 1).drop_last() =~= rv.take(k as int));
                assert(rv.take(k + 1).last() == reqs@[k as int]@);
            }
            let req = &reqs[k];
            let mut found = false;
            let mut i: usize = 0;
            let ghost before = out@;
            assert(fv.take(0) =~= Seq::<(Seq<char>, Seq<char>)>::empty());
            while i < self.features.len()
                invariant
                    i <= self.features.len(),
                    fv == self.features_view(),
                    out@ == before + feature_text(req@, fv.take(i as int)),
                    found <==> exists|j: int| 0 <= j < i && (#[trigger] fv[j]).0 == req@,
                decreases self.features.len() - i,
            {
                proof {
                    assert(fv.take(i + 1).drop_last() =~= fv.take(i as int));
                    assert(fv.take(i + 1).last() == fv[i as int]);
                    assert(fv[i as int] == (self.features@[i as int].0@, self.features@[i as int].1@));
                }
                let name = String::from_str(self.features[i].0);
                if name.eq(req) {
                    out.append(self.features[i].1);
                    found = true;
                }
                i = i + 1;
            }
            proof {
                assert(fv.take(i as int) =~= fv);
            }
            if !found {
                proof {
                    lemma_features_text_err(rv, fv, k + 1);
                }
                return Err(PlatformFault::MissingFeature);
            }
            k = k + 1;
        }
        proof {
            assert(rv.take(k as int) =~= rv);
        }
        Ok(out)
    }
}

/// The assembly of `tasks`.
fn tasks_assembly<G: AssemblyGenerator>(tasks: &Vec<crate::ir::GeneratableTask>) -> (r: Result<String, PlatformFault>)
    ensures
        match tasks_text::<G>(gen_tasks_view(tasks@)) {
            Ok(t) => r is Ok && r->Ok_0@ == t,
            Err(f) => r == Err::<String, PlatformFault>(f),
        },
{
    let ghost tv = gen_tasks_view(tasks@);
    let mut out = String::new();
    let mut k: usize = 0;
    assert(tv.take(0) =~= Seq::<GenTaskView>::empty());
    while k < tasks.len()
        invariant
            k <= tasks.len(),
            tv == gen_tasks_view(tasks@),
            tasks_text::<G>(tv.take(k as int)) == Ok::<Seq<char>, PlatformFault>(out@),
        decreases tasks.len() - k,
    {
        proof {
            assert(tv.take(k + 1).drop_last() =~= tv.take(k as int));
            assert(tv.take(k + 1).last() == tasks@[k as int]@);
        }
        match tasks[k].call_generator::<G>() {
            Ok(text) => out.append(text.as_str()),
            Err(f) => {
                proof {
                    lemma_tasks_text_err::<G>(tv, k + 1);
                }
                return Err(PlatformFault::Generate(f));
            },
        }
        k = k + 1;
    }
    proof {
        assert(tv.take(k as int) =~= tv);
    }
    Ok(out)
}

/// The assembly of code segments.
fn sections_assembly<G: AssemblyGenerator>(sections: &Vec<CodeSegment>) -> (r: Result<String, PlatformFault>)
    ensures
        match sections_text::<G>(sections@) {
            Ok(t) => r is Ok && r->Ok_0@ == t,
            Err(f) => r == Err::<String, PlatformFault>(f),
        },
{
    let mut out = String::new();
    let mut k: usize = 0;
    assert(sections@.take(0) =~= Seq::<CodeSegment>::empty());
    while k < sections.len()
        invariant
            k <= sections.len(),
            sections_text::<G>(sections@.take(k as int)) == Ok::<Seq<char>, PlatformFault>(out@),
        decreases sections.len() - k,
    {
        proof {
            assert(sections@.take(k + 1).drop_last() =~= sections@.take(k as int));
            assert(sections@.take(k + 1).last() == sections@[k as int]);
        }
        let label = G::label(sections[k].label.clone());
        match tasks_assembly::<G>(&sections[k].tasks) {
            Ok(text) => {
                out.append(label.as_str());
                out.append(text.as_str());
            },
            Err(f) => {
                proof {
                    lemma_sections_text_err::<G>(sections@, k + 1);
                }
                return Err(f);
            },
        }
        k = k + 1;
    }
    proof {
        assert(sections@.take(k as int) =~= sections@);
    }
    Ok(out)
}

/// The assembly of data entries.
fn data_assembly<G: AssemblyGenerator>(data: &Vec<crate::ir::Data>) -> (r: Result<String, PlatformFault>)
    ensures
        match data_text::<G>(data_view(data@)) {
            Ok(t) => r is Ok && r->Ok_0@ == t,
            Err(f) => r == Err::<String, PlatformFault>(f),
        },
{
    let ghost dv = data_view(data@);
    let mut out = String::new();
    let mut k: usize = 0;
    assert(dv.take(0) =~= Seq::<DataView>::empty());
    while k < data.len()
        invariant
            k <= data.len(),
            dv == data_view(data@),
            data_text::<G>(dv.take(k as int)) == Ok::<Seq<char>, PlatformFault>(out@),
        decreases data.len() - k,
    {
        proof {
            assert(dv.take(k + 1).drop_last() =~= dv.take(k as int));
            assert(dv.take(k + 1).last() == data@[k as int]@);
        }
        let entry = &data[k];
        match &entry.default {
            Some(bytes) => {
                if bytes.len() != entry.size {
                    proof {
                        lemma_data_text_err::<G>(dv, k + 1);
                    }
                    return Err(PlatformFault::DataSizeMismatch);
                }
                let text = G::data(entry.label.clone(), bytes);
                out.append(text.as_str());
            },
            None => {
                let mut zeros: Vec<u8> = Vec::new();
                let mut z: usize = 0;
                while z < entry.size
                    invariant
                        z <= entry.size,
                        zeros@ == Seq::new(z as nat, |i: int| 0u8),
                    decreases entry.size - z,
                {
                    zeros.push(0);
                    assert(zeros@ =~= Seq::new((z + 1) as nat, |i: int| 0u8));
                    z = z + 1;
                }
                let text = G::data(entry.label.clone(), &zeros);
                out.append(text.as_str());
            },
        }
        k = k + 1;
    }
    proof {
        assert(dv.take(k as int) =~= dv);
    }
    Ok(out)
}

proof fn lemma_tasks_text_err<G: AssemblyGenerator>(s: Seq<GenTaskView>, n: int)
    requires
        0 <= n <= s.len(),
        tasks_text::<G>(s.take(n)) is Err,
    ensures
        tasks_text::<G>(s) == tasks_text::<G>(s.take(n)),
    decreases s.len() - n,
{
    if n < s.len() {
        assert(s.take(n + 1).drop_last() =~= s.take(n));
        lemma_tasks_text_err::<G>(s, n + 1);
    } else {
        assert(s.take(n) =~= s);
    }
}

proof fn lemma_sections_text_err<G: AssemblyGenerator>(s: Seq<CodeSegment>, n: int)
    requires
        0 <= n <= s.len(),
        sections_text::<G>(s.take(n)) is Err,
    ensures
        sections_text::<G>(s) == sections_text::<G>(s.take(n)),
    decreases s.len() - n,
{
    if n < s.len() {
        assert(s.take(n + 1).drop_last() =~= s.take(n));
        lemma_sections_text_err::<G>(s, n + 1);
    } else {
        assert(s.take(n) =~= s);
    }
}

proof fn lemma_data_text_err<G: AssemblyGenerator>(s: Seq<DataView>, n: int)
    requires
        0 <= n <= s.len(),
        data_text::<G>(s.take(n)) is Err,
    ensures
        data_text::<G>(s) == data_text::<G>(s.take(n)),
    decreases s.len() - n,
{
    if n < s.len() {
        assert(s.take(n + 1).drop_last() =~= s.take(n));
        lemma_data_text_err::<G>(s, n + 1);
    } else {
        assert(s.take(n) =~= s);
    }
}

proof fn lemma_features_text_err(s: Seq<Seq<char>>, features: Seq<(Seq<char>, Seq<char>)>, n: int)
    requires
        0 <= n <= s.len(),
        features_text(s.take(n), features) is Err,
    ensures
        features_text(s, features) == features_text(s.take(n), features),
    decreases s.len() - n,
{
    if n < s.len() {
        assert(s.take(n + 1).drop_last() =~= s.take(n));
        lemma_features_text_err(s, features, n + 1);
    } else {
        assert(s.take(n) =~= s);
    }
}

} // verus!

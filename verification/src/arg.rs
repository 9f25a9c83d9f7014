//! The render configuration surface: output sink and diffuse-method
//! selection, filename resolution, verbosity.
//!
//! Everything here is the decision logic behind the command line: names
//! for the closed option sets, exact defaulting, and the output filename
//! format. The command-line crate itself stays outside the library.

use vstd::prelude::*;

use crate::material::DiffuseMethod;

verus! {

/// Where the rendered image goes.
#[derive(Clone, Copy, Debug, PartialEq, Eq, Structural)]
pub enum Sink {
    Window,
    File,
}

/// The resolved render configuration.
#[derive(Debug)]
pub struct Args {
    pub output: Sink,
    pub filename: Option<String>,
    pub diffuse_method: DiffuseMethod,
    pub verbose: bool,
}

/// The kebab-case name of a diffuse method.
pub open spec fn spec_diffuse_name(m: DiffuseMethod) -> Seq<char> {
    match m {
        DiffuseMethod::Simple => "simple"@,
        DiffuseMethod::Lambert => "lambert"@,
        DiffuseMethod::Hemisphere => "hemisphere"@,
    }
}

/// The diffuse method a name selects, if any.
pub open spec fn spec_diffuse_from_name(s: Seq<char>) -> Option<DiffuseMethod> {
    if s == "simple"@ {
        Some(DiffuseMethod::Simple)
    } else if s == "lambert"@ {
        Some(DiffuseMethod::Lambert)
    } else if s == "hemisphere"@ {
        Some(DiffuseMethod::Hemisphere)
    } else {
        None
    }
}

/// The kebab-case name of a sink.
pub open spec fn spec_sink_name(s: Sink) -> Seq<char> {
    match s {
        Sink::Window => "window"@,
        Sink::File => "file"@,
    }
}

/// The sink a name selects, if any.
pub open spec fn spec_sink_from_name(s: Seq<char>) -> Option<Sink> {
    if s == "window"@ {
        Some(Sink::Window)
    } else if s == "file"@ {
        Some(Sink::File)
    } else {
        None
    }
}

/// Character-by-character string equality.
fn str_eq(a: &str, b: &str) -> (r: bool)
    ensures
        r == (a@ == b@),
{
    let la = a.unicode_len();
    let lb = b.unicode_len();
    if la != lb {
        return false;
    }
    let mut i: usize = 0;
    while i < la
        invariant
            la as nat == a@.len(),
            la as nat == b@.len(),
            0 <= i <= la,
            forall|k: int| 0 <= k < i ==> a@[k] == b@[k],
        decreases la - i,
    {
        let ca = a.get_char(i);
        let cb = b.get_char(i);
        if ca != cb {
            return false;
        }
        i = i + 1;
    }
    proof {
        assert(a@ =~= b@);
    }
    true
}

impl DiffuseMethod {
    /// The variant's kebab-case name.
    pub fn name(&self) -> (r: &'static str)
        ensures
            r@ == spec_diffuse_name(*self),
    {
        match self {
            DiffuseMethod::Simple => "simple",
            DiffuseMethod::Lambert => "lambert",
            DiffuseMethod::Hemisphere => "hemisphere",
        }
    }

    /// The variant a name selects, exactly per `spec_diffuse_from_name`.
    pub fn from_name(s: &str) -> (r: Option<DiffuseMethod>)
        ensures
            r == spec_diffuse_from_name(s@),
    {
        if str_eq(s, "simple") {
            Some(DiffuseMethod::Simple)
        } else if str_eq(s, "lambert") {
            Some(DiffuseMethod::Lambert)
        } else if str_eq(s, "hemisphere") {
            Some(DiffuseMethod::Hemisphere)
        } else {
            None
        }
    }

    /// Every variant, in declaration order.
    pub fn all() -> (r: Vec<DiffuseMethod>)
        ensures
            r@ =~= seq![
                DiffuseMethod::Simple,
                DiffuseMethod::Lambert,
                DiffuseMethod::Hemisphere,
            ],
    {
        let mut v: Vec<DiffuseMethod> = Vec::new();
        v.push(DiffuseMethod::Simple);
        v.push(DiffuseMethod::Lambert);
        v.push(DiffuseMethod::Hemisphere);
        v
    }

    /// The next variant, cycling through all three.
    pub fn next(&self) -> (r: DiffuseMethod)
        ensures
            r == match *self {
                DiffuseMethod::Simple => DiffuseMethod::Lambert,
                DiffuseMethod::Lambert => DiffuseMethod::Hemisphere,
                DiffuseMethod::Hemisphere => DiffuseMethod::Simple,
            },
    {
        match self {
            DiffuseMethod::Simple => DiffuseMethod::Lambert,
            DiffuseMethod::Lambert => DiffuseMethod::Hemisphere,
            DiffuseMethod::Hemisphere => DiffuseMethod::Simple,
        }
    }
}

impl Sink {
    /// The sink's kebab-case name.
    pub fn name(&self) -> (r: &'static str)
        ensures
            r@ == spec_sink_name(*self),
    {
        match self {
            Sink::Window => "window",
            Sink::File => "file",
        }
    }

    /// The sink a name selects, exactly per `spec_sink_from_name`.
    pub fn from_name(s: &str) -> (r: Option<Sink>)
        ensures
            r == spec_sink_from_name(s@),
    {
        if str_eq(s, "window") {
            Some(Sink::Window)
        } else if str_eq(s, "file") {
            Some(Sink::File)
        } else {
            None
        }
    }
}

/// Resolves the configuration: the diffuse method defaults to Lambert and
/// the sink to the window; a given filename base becomes
/// `<base>_<method>.ppm`, a file sink without one gets `image.ppm`, and
/// any other sink leaves the filename empty.
pub fn resolve_args(
    output: Option<Sink>,
    filename: Option<String>,
    diffuse_method: Option<DiffuseMethod>,
    verbose: bool,
) -> (r: Args)
    ensures
        r.diffuse_method == match diffuse_method {
            Some(d) => d,
            None => DiffuseMethod::Lambert,
        },
        r.output == match output {
            Some(o) => o,
            None => Sink::Window,
        },
        r.verbose == verbose,
        match (filename, r.filename) {
            (Some(base), Some(f)) => f@ == base@ + "_"@ + spec_diffuse_name(r.diffuse_method)
                + ".ppm"@,
            (None, Some(f)) => r.output == Sink::File && f@ == "image.ppm"@,
            (None, None) => r.output != Sink::File,
            (Some(_), None) => false,
        },
{
    let dm = match diffuse_method {
        Some(d) => d,
        None => DiffuseMethod::Lambert,
    };
    let out = match output {
        Some(o) => o,
        None => Sink::Window,
    };
    let fname: Option<String> = match filename {
        Some(base) => Some(base.concat("_").concat(dm.name()).concat(".ppm")),
        None => if out == Sink::File {
            Some(String::from_str("image.ppm"))
        } else {
            None
        },
    };
    Args { output: out, filename: fname, diffuse_method: dm, verbose }
}

} // verus!

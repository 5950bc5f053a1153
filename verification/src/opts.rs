use vstd::prelude::*;

use crate::Error;

verus! {

/// Source format of the input bytes.
#[derive(Clone, Copy, Debug, PartialEq, Eq, Structural)]
pub enum Input {
    Yaml,
    Json,
    Toml,
}

/// Target format the query processor's output is re-encoded into; `Jq` is
/// the processor's own output, passed through verbatim.
#[derive(Clone, Copy, Debug, PartialEq, Eq, Structural)]
pub enum Output {
    Yaml,
    Jq,
    Toml,
}

impl Default for Input {
    fn default() -> (r: Self)
        ensures
            r == Input::Yaml,
    {
        Input::Yaml
    }
}

impl Default for Output {
    fn default() -> (r: Self)
        ensures
            r == Output::Jq,
    {
        Output::Jq
    }
}

/// One run's options, immutable for the run's lifetime.
#[derive(Debug)]
pub struct Args {
    pub input: Input,
    pub output: Output,
    pub yaml_output: bool,
    pub toml_output: bool,
    pub in_place: bool,
    pub split: Option<String>,
    pub jq_query: Option<String>,
    pub file: Option<String>,
    pub compact_output: bool,
    pub raw_output: bool,
    pub join_output: bool,
    pub modules: Option<String>,
}

impl Default for Args {
    fn default() -> (r: Self)
        ensures
            r.input == Input::Yaml,
            r.output == Output::Jq,
            !r.yaml_output,
            !r.toml_output,
            !r.in_place,
            r.split is None,
            r.jq_query is None,
            r.file is None,
            !r.compact_output,
            !r.raw_output,
            !r.join_output,
            r.modules is None,
    {
        Args {
            input: Input::Yaml,
            output: Output::Jq,
            yaml_output: false,
            toml_output: false,
            in_place: false,
            split: None,
            jq_query: None,
            file: None,
            compact_output: false,
            raw_output: false,
            join_output: false,
            modules: None,
        }
    }
}

/// The argument vector handed to the query processor: the query text, then
/// the pass-through flags, then the module search path.
pub open spec fn jq_args_model(a: Args) -> Seq<Seq<char>> {
    (match a.jq_query {
        Some(q) => seq![q@],
        None => Seq::<Seq<char>>::empty(),
    }) + (if a.compact_output {
        seq!["-c"@]
    } else {
        Seq::<Seq<char>>::empty()
    }) + (if a.raw_output {
        seq!["-r"@]
    } else {
        Seq::<Seq<char>>::empty()
    }) + (if a.join_output {
        seq!["-j"@]
    } else {
        Seq::<Seq<char>>::empty()
    }) + (match a.modules {
        Some(d) => seq!["-L"@, d@],
        None => Seq::<Seq<char>>::empty(),
    })
}

/// The argument vector for deriving one document's split key: raw output of
/// the key expression, so the key comes back as one unquoted line.
pub open spec fn jq_split_args_model(a: Args) -> Option<Seq<Seq<char>>> {
    match a.split {
        Some(s) => Some(seq!["-r"@, s@]),
        None => None,
    }
}

/// The option-validation rule: the two target-format shorthands exclude each
/// other; editing in place demands a file path and excludes split mode; and
/// split mode excludes the pass-through flags that would break re-parsing.
pub open spec fn options_ok(a: Args) -> bool {
    &&& !(a.yaml_output && a.toml_output)
    &&& (a.in_place ==> a.file is Some)
    &&& !(a.in_place && a.split is Some)
    &&& (a.split is Some ==> !a.raw_output && !a.compact_output && !a.join_output)
}

/// The target format once the two shorthand flags are applied.
pub open spec fn resolved_output_model(a: Args) -> Output {
    if a.yaml_output {
        Output::Yaml
    } else if a.toml_output {
        Output::Toml
    } else {
        a.output
    }
}

impl Args {
    /// The arguments for the main query invocation.
    pub fn jq_args(&self) -> (args: Vec<String>)
        ensures
            args@.map_values(|s: String| s@) == jq_args_model(*self),
    {
        let mut args: Vec<String> = Vec::new();
        if let Some(query) = &self.jq_query {
            args.push(query.clone());
        }
        let ghost p1 = (if self.jq_query is Some {
            seq![self.jq_query->0@]
        } else {
            Seq::<Seq<char>>::empty()
        });
        proof {
            assert(args@.map_values(|s: String| s@) =~= p1);
        }
        if self.compact_output {
            args.push("-c".to_owned());
        }
        let ghost p2 = p1 + (if self.compact_output {
            seq!["-c"@]
        } else {
            Seq::<Seq<char>>::empty()
        });
        proof {
            assert(args@.map_values(|s: String| s@) =~= p2);
        }
        if self.raw_output {
            args.push("-r".to_owned());
        }
        let ghost p3 = p2 + (if self.raw_output {
            seq!["-r"@]
        } else {
            Seq::<Seq<char>>::empty()
        });
        proof {
            assert(args@.map_values(|s: String| s@) =~= p3);
        }
        if self.join_output {
            args.push("-j".to_owned());
        }
        let ghost p4 = p3 + (if self.join_output {
            seq!["-j"@]
        } else {
            Seq::<Seq<char>>::empty()
        });
        proof {
            assert(args@.map_values(|s: String| s@) =~= p4);
        }
        if let Some(dir) = &self.modules {
            args.push("-L".to_owned());
            args.push(dir.clone());
        }
        let ghost p5 = p4 + (if self.modules is Some {
            seq!["-L"@, self.modules->0@]
        } else {
            Seq::<Seq<char>>::empty()
        });
        proof {
            assert(args@.map_values(|s: String| s@) =~= p5);
            assert(p5 == jq_args_model(*self));
        }
        args
    }

    /// The arguments for deriving a split key, present exactly when split
    /// mode was requested.
    pub fn jq_split_args(&self) -> (r: Option<Vec<String>>)
        ensures
            r is Some <==> self.split is Some,
            r matches Some(v) ==> Some(v@.map_values(|s: String| s@)) == jq_split_args_model(
                *self,
            ),
    {
        match &self.split {
            Some(split_by) => {
                let mut v: Vec<String> = Vec::new();
                v.push("-r".to_owned());
                v.push(split_by.clone());
                proof {
                    assert(v@.map_values(|s: String| s@) =~= seq!["-r"@, self.split->0@]);
                }
                Some(v)
            },
            None => None,
        }
    }

    /// The target format of this run, the shorthand flags applied.
    pub fn resolved_output(&self) -> (o: Output)
        ensures
            o == resolved_output_model(*self),
    {
        if self.yaml_output {
            Output::Yaml
        } else if self.toml_output {
            Output::Toml
        } else {
            self.output
        }
    }

    /// Checks the options against the validation rule, and fails with the
    /// usage error exactly when they break it.
    pub fn validate(&self) -> (r: Result<(), Error>)
        ensures
            r is Ok <==> options_ok(*self),
            r matches Err(e) ==> e is Usage,
    {
        if self.yaml_output && self.toml_output {
            return Err(Error::Usage);
        }
        if self.in_place && self.file.is_none() {
            return Err(Error::Usage);
        }
        if self.in_place && self.split.is_some() {
            return Err(Error::Usage);
        }
        if self.split.is_some() && (self.raw_output || self.compact_output || self.join_output) {
            return Err(Error::Usage);
        }
        Ok(())
    }
}

/// Editing in place is rejected at option validation whenever no file path
/// was supplied, and whenever split mode was requested as well.
pub proof fn lemma_in_place_rejected(a: Args)
    ensures
        a.in_place && a.file is None ==> !options_ok(a),
        a.in_place && a.split is Some ==> !options_ok(a),
{
}

} // verus!

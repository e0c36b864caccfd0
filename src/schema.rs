//! Projection of a table onto the model's inputs and its label.

use vstd::prelude::*;
use crate::frame::{Frame, FrameError, first_missing, views_of};

verus! {

/// Which columns are the model's inputs (`features`, in this order) and which
/// is its label (`targets`).
pub struct FeatureSchema {
    pub features: Vec<String>,
    pub targets: Vec<String>,
}

/// Why names do not form a schema.
#[derive(Debug, PartialEq, Eq)]
pub enum SchemaError {
    /// There is not exactly one target; this many were given.
    TargetCount { count: usize },
    /// The target is also listed among the features.
    SharedName { name: String },
}

/// The names of `names` as strings.
fn strings_of(names: &[&str]) -> (r: Vec<String>)
    ensures
        r@.len() == names@.len(),
        forall|k: int| 0 <= k < names@.len() ==> #[trigger] r@[k]@ == names@[k]@,
{
    let mut r: Vec<String> = Vec::new();
    let mut k: usize = 0;
    while k < names.len()
        invariant
            k <= names@.len(),
            r@.len() == k,
            forall|m: int| 0 <= m < k ==> #[trigger] r@[m]@ == names@[m]@,
        decreases names@.len() - k,
    {
        r.push(names[k].to_owned());
        k = k + 1;
    }
    r
}

impl FeatureSchema {
    /// Exactly one target, and it is not a feature.
    pub open spec fn wf(&self) -> bool {
        &&& self.targets@.len() == 1
        &&& forall|k: int|
            0 <= k < self.features@.len() ==> (#[trigger] self.features@[k])@ != self.targets@[0]@
    }

    /// A schema of these features and targets, if they satisfy `wf`.
    pub fn new(features: Vec<String>, targets: Vec<String>) -> (r: Result<FeatureSchema, SchemaError>)
        ensures
            r is Ok <==> (FeatureSchema { features, targets }).wf(),
            r matches Ok(s) ==> s.features == features && s.targets == targets,
            (r matches Err(SchemaError::TargetCount { .. })) <==> targets@.len() != 1,
            r matches Err(SchemaError::TargetCount { count }) ==> count == targets@.len(),
            r matches Err(SchemaError::SharedName { name }) ==> targets@.len() == 1 && name@
                == targets@[0]@ && views_of(features@).contains(name@),
    {
        if targets.len() != 1 {
            return Err(SchemaError::TargetCount { count: targets.len() });
        }
        let mut k: usize = 0;
        while k < features.len()
            invariant
                targets@.len() == 1,
                k <= features@.len(),
                forall|m: int| 0 <= m < k ==> (#[trigger] features@[m])@ != targets@[0]@,
            decreases features@.len() - k,
        {
            if features[k] == targets[0] {
                proof {
                    assert(views_of(features@)[k as int] == features@[k as int]@);
                    assert(features@[k as int]@ == targets@[0]@);
                    let ghost sch = FeatureSchema { features, targets };
                    assert(sch.features@[k as int]@ == sch.targets@[0]@);
                    assert(!sch.wf());
                }
                return Err(SchemaError::SharedName { name: targets[0].clone() });
            }
            k = k + 1;
        }
        Ok(FeatureSchema { features, targets })
    }

    /// The Boston housing schema: thirteen predictors and the median value
    /// `medv` as the label.
    pub fn boston() -> (r: FeatureSchema)
        ensures
            views_of(r.features@) == seq![
                "crim"@, "zn"@, "indus"@, "chas"@, "nox"@, "rm"@, "age"@, "dis"@, "rad"@, "tax"@,
                "ptratio"@, "b"@, "lstat"@,
            ],
            views_of(r.targets@) == seq!["medv"@],
            r.wf(),
    {
        let features = strings_of(
            &["crim", "zn", "indus", "chas", "nox", "rm", "age", "dis", "rad", "tax", "ptratio", "b", "lstat"],
        );
        let targets = strings_of(&["medv"]);
        proof {
            assert(views_of(features@) =~= seq![
                "crim"@, "zn"@, "indus"@, "chas"@, "nox"@, "rm"@, "age"@, "dis"@, "rad"@, "tax"@,
                "ptratio"@, "b"@, "lstat"@,
            ]);
            assert(views_of(targets@) =~= seq!["medv"@]);
            reveal_strlit("medv");
            reveal_strlit("crim");
            reveal_strlit("zn");
            reveal_strlit("indus");
            reveal_strlit("chas");
            reveal_strlit("nox");
            reveal_strlit("rm");
            reveal_strlit("age");
            reveal_strlit("dis");
            reveal_strlit("rad");
            reveal_strlit("tax");
            reveal_strlit("ptratio");
            reveal_strlit("b");
            reveal_strlit("lstat");
            assert forall|k: int| 0 <= k < features@.len() implies (#[trigger] features@[k])@
                != targets@[0]@ by {
                assert(views_of(features@)[k] == features@[k]@);
                assert(views_of(targets@)[0] == targets@[0]@);
                assert(features@[k]@[0] != targets@[0]@[0] || features@[k]@.len() != 4 || features@[k]@[1] != targets@[0]@[1]);
            }
        }
        FeatureSchema { features, targets }
    }
}

/// Splits `frame` into the feature columns and the target columns of
/// `schema`, each in the schema's order and with all rows. Fails, naming the
/// first name of the features and then the targets that `frame` lacks.
pub fn split_features_and_targets<T: Copy>(frame: &Frame<T>, schema: &FeatureSchema) -> (r: Result<
    (Frame<T>, Frame<T>),
    FrameError,
>)
    requires
        frame.wf(),
    ensures
        r is Ok <==> forall|k: int|
            0 <= k < (schema.features@ + schema.targets@).len() ==> frame.name_views().contains(
                #[trigger] (schema.features@ + schema.targets@)[k]@,
            ),
        r matches Ok((x, y)) ==> x.holds_columns_of(frame, views_of(schema.features@))
            && y.holds_columns_of(frame, views_of(schema.targets@)),
        r matches Err(e) ==> exists|k: int|
            #[trigger] first_missing(frame.name_views(), schema.features@ + schema.targets@, k) && e
                == (FrameError::UnknownColumn { name: (schema.features@ + schema.targets@)[k] }),
{
    let ghost all = schema.features@ + schema.targets@;
    let ghost nf = schema.features@.len();
    let features = match frame.select(&schema.features) {
        Ok(f) => f,
        Err(e) => {
            proof {
                let k = choose|k: int|
                    first_missing(frame.name_views(), schema.features@, k) && e == (FrameError::UnknownColumn {
                        name: schema.features@[k],
                    });
                assert forall|m: int| 0 <= m < k implies frame.name_views().contains(#[trigger] all[m]@) by {
                    assert(all[m] == schema.features@[m]);
                    assert(frame.name_views().contains(schema.features@[m]@));
                }
                assert(all[k] == schema.features@[k]);
                assert(first_missing(frame.name_views(), all, k));
            }
            return Err(e);
        },
    };
    let targets = match frame.select(&schema.targets) {
        Ok(t) => t,
        Err(e) => {
            proof {
                let k = choose|k: int|
                    first_missing(frame.name_views(), schema.targets@, k) && e == (FrameError::UnknownColumn {
                        name: schema.targets@[k],
                    });
                assert forall|m: int| 0 <= m < nf + k implies frame.name_views().contains(#[trigger] all[m]@) by {
                    if m < nf {
                        assert(all[m] == schema.features@[m]);
                        assert(frame.name_views().contains(schema.features@[m]@));
                    } else {
                        assert(all[m] == schema.targets@[m - nf]);
                        assert(frame.name_views().contains(schema.targets@[m - nf]@));
                    }
                }
                assert(all[nf + k] == schema.targets@[k]);
                assert(first_missing(frame.name_views(), all, nf + k));
            }
            return Err(e);
        },
    };
    proof {
        assert forall|m: int| 0 <= m < all.len() implies frame.name_views().contains(#[trigger] all[m]@) by {
            if m < nf {
                assert(all[m] == schema.features@[m]);
                assert(frame.name_views().contains(schema.features@[m]@));
            } else {
                assert(all[m] == schema.targets@[m - nf]);
                assert(frame.name_views().contains(schema.targets@[m - nf]@));
            }
        }
    }
    Ok((features, targets))
}

} // verus!

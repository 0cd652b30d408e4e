//! The database: the models of a project with their hierarchy, checked once
//! when the project is loaded and read-only from then on.

use crate::error::{Error, Fault, SchemaFault};
use crate::json::{parse, parsed, Json, JsonView};
use crate::loader::{is_project, lemma_project_read_is_readable, project_readable, read_project};
use crate::hierarchy::{
    children_of, descend, find_path, lemma_find_path_leads, node_at, search,
};
use crate::model::{
    find_external_id, find_id, find_model, find_model_by_external_id, HierarchyNode, Model,
    ModelKind,
};
use crate::validation::{fault_holds, valid_models, validate};
use vstd::prelude::*;

verus! {

/// A project as authored: its models in package order and its hierarchy.
#[derive(Debug)]
pub struct Project {
    pub models: Vec<Model>,
    pub hierarchy: HierarchyNode,
}

/// The models among `ms`, in order, whose type tag is `tag`.
pub open spec fn of_type(ms: Seq<Model>, tag: Seq<char>) -> Seq<Model> {
    ms.filter(|m: Model| m.kind.tag() == tag)
}

/// The identifiers of the nodes, in order.
pub open spec fn node_ids(nodes: Seq<HierarchyNode>) -> Seq<Seq<char>> {
    Seq::new(nodes.len(), |i: int| nodes[i].id@)
}

/// The identifiers of the children of the user folder `id`, as the
/// hierarchy lists them: the children of the first node, in depth-first
/// order, that stands for the folder. The identifier has to be that of a
/// model, the model a user folder, and the hierarchy has to hold it.
pub open spec fn folder_children(ms: Seq<Model>, root: HierarchyNode, id: Seq<char>) -> Result<
    Seq<Seq<char>>,
    Fault,
> {
    match find_id(ms, id, 0) {
        None => Err(Fault::NotFound(id)),
        Some(i) => if !(ms[i].kind is UserFolder) {
            Err(Fault::NotAFolder(id))
        } else {
            match find_path(root, id) {
                None => Err(Fault::NotFound(id)),
                Some(p) => Ok(node_ids(children_of(node_at(root, p)->Some_0))),
            }
        },
    }
}

/// The models of the identifiers, in order; the first identifier that is
/// no model is not found.
pub open spec fn models_of(ms: Seq<Model>, ids: Seq<Seq<char>>) -> Result<Seq<Model>, Fault>
    decreases ids.len(),
{
    if ids.len() == 0 {
        Ok(Seq::empty())
    } else {
        match models_of(ms, ids.drop_last()) {
            Err(f) => Err(f),
            Ok(before) => match find_id(ms, ids.last(), 0) {
                Some(i) => Ok(before.push(ms[i])),
                None => Err(Fault::NotFound(ids.last())),
            },
        }
    }
}

/// What a list of references to models refers to.
pub open spec fn referents(refs: Seq<&Model>) -> Seq<Model> {
    Seq::new(refs.len(), |i: int| *refs[i])
}

/// What opening the document `doc` gives: a database of the valid project
/// that the document reads as; `Malformed` exactly where the document does
/// not read as a project; else a fault of the models that it reads as.
pub open spec fn opened(doc: JsonView, r: Result<Database, Error>) -> bool {
    match r {
        Ok(db) => db.loaded() && valid_models(db.models()) && (db.hierarchy() matches Some(h)
            && is_project(doc, db.models(), h)),
        Err(Error::SchemaError(SchemaFault::Malformed)) => !project_readable(doc),
        Err(Error::SchemaError(f)) => project_readable(doc) && exists|
            ms: Seq<Model>,
            h: HierarchyNode,
        | #[trigger] is_project(doc, ms, h) && fault_holds(ms, f),
        Err(_) => false,
    }
}

/// The queryable database over the authored graph. It holds no project
/// until one is loaded, and a loaded project is valid.
#[derive(Debug)]
pub struct Database {
    project: Option<Project>,
}

impl Default for Database {
    /// A database without a project.
    fn default() -> (r: Database)
        ensures
            !r.loaded(),
    {
        Database::new()
    }
}

impl Database {
    #[verifier::type_invariant]
    spec fn well_formed(&self) -> bool {
        self.project matches Some(p) ==> valid_models(p.models@)
    }

    /// Whether a project is loaded.
    pub closed spec fn loaded(&self) -> bool {
        self.project is Some
    }

    /// The models of the loaded project, in package order.
    pub closed spec fn models(&self) -> Seq<Model> {
        match self.project {
            Some(p) => p.models@,
            None => Seq::empty(),
        }
    }

    /// The root of the hierarchy of the loaded project.
    pub closed spec fn hierarchy(&self) -> Option<HierarchyNode> {
        match self.project {
            Some(p) => Some(p.hierarchy),
            None => None,
        }
    }

    /// A database without a project.
    pub fn new() -> (r: Database)
        ensures
            !r.loaded(),
            r.models() == Seq::<Model>::empty(),
            r.hierarchy() is None,
    {
        Database { project: None }
    }

    /// A database that holds `project`, if the project is valid.
    pub fn from_project(project: Project) -> (r: Result<Database, Error>)
        ensures
            r is Ok <==> valid_models(project.models@),
            r matches Ok(db) ==> db.loaded() && db.models() == project.models@ && db.hierarchy()
                == Some(project.hierarchy),
            r matches Err(e) ==> (e matches Error::SchemaError(f) && fault_holds(
                project.models@,
                f,
            )),
    {
        match validate(&project.models) {
            Ok(()) => Ok(Database { project: Some(project) }),
            Err(f) => Err(Error::SchemaError(f)),
        }
    }

    /// A database that holds the project that the document `doc` reads as.
    /// See [`opened`].
    pub fn from_json(doc: &Json) -> (r: Result<Database, Error>)
        ensures
            opened(doc@, r),
    {
        match read_project(doc) {
            None => Err(Error::SchemaError(SchemaFault::Malformed)),
            Some((models, hierarchy)) => match validate(&models) {
                Ok(()) => Ok(Database { project: Some(Project { models, hierarchy }) }),
                Err(f) => {
                    proof {
                        lemma_project_read_is_readable(doc@, models@, hierarchy);
                    }
                    assert(is_project(doc@, models@, hierarchy) && fault_holds(models@, f));
                    Err(Error::SchemaError(f))
                },
            },
        }
    }

    /// A database that holds the project that the bytes of a project file
    /// write. The bytes are parsed as JSON, which [`parsed`] names; the
    /// document is then read as [`Database::from_json`] reads it.
    pub fn open(bytes: &[u8]) -> (r: Result<Database, Error>)
        ensures
            match parsed(bytes@) {
                Some(doc) => opened(doc, r),
                None => r matches Err(e) && e == Error::SchemaError(SchemaFault::NotJson),
            },
    {
        match parse(bytes) {
            Some(doc) => Database::from_json(&doc),
            None => Err(Error::SchemaError(SchemaFault::NotJson)),
        }
    }

    /// Loads `project` in place of what the database held, if the project is
    /// valid; else the database is left as it was.
    pub fn load(&mut self, project: Project) -> (r: Result<(), Error>)
        ensures
            r is Ok <==> valid_models(project.models@),
            r is Ok ==> final(self).loaded() && final(self).models() == project.models@,
            r is Ok ==> final(self).hierarchy() == Some(project.hierarchy),
            r matches Err(e) ==> (e matches Error::SchemaError(f) && fault_holds(
                project.models@,
                f,
            )) && *final(self) == *old(self),
    {
        match validate(&project.models) {
            Ok(()) => {
                self.project = Some(project);
                Ok(())
            },
            Err(f) => Err(Error::SchemaError(f)),
        }
    }

    /// Whether a project is loaded.
    pub fn is_loaded(&self) -> (b: bool)
        ensures
            b == self.loaded(),
    {
        self.project.is_some()
    }

    /// The loaded project, whose models are valid.
    pub fn project(&self) -> (r: Option<&Project>)
        ensures
            match r {
                Some(p) => self.loaded() && p.models@ == self.models() && self.hierarchy() == Some(
                    p.hierarchy,
                ) && valid_models(p.models@),
                None => !self.loaded(),
            },
    {
        proof {
            use_type_invariant(self);
        }
        self.project.as_ref()
    }

    /// The model whose identifier is `id`.
    pub fn get_model(&self, id: &str) -> (r: Option<&Model>)
        ensures
            match r {
                Some(m) => find_id(self.models(), id@, 0) matches Some(i) && *m == self.models()[i],
                None => find_id(self.models(), id@, 0) is None,
            },
    {
        match &self.project {
            Some(p) => match find_model(&p.models, &id.to_owned()) {
                Some(i) => Some(&p.models[i]),
                None => None,
            },
            None => None,
        }
    }

    /// The first model whose external identifier is `external_id`. An empty
    /// external identifier names no model.
    pub fn get_model_by_external_id(&self, external_id: &str) -> (r: Option<&Model>)
        ensures
            match r {
                Some(m) => external_id@.len() > 0 && (find_external_id(
                    self.models(),
                    external_id@,
                    0,
                ) matches Some(i) && *m == self.models()[i]),
                None => external_id@.len() == 0 || find_external_id(
                    self.models(),
                    external_id@,
                    0,
                ) is None,
            },
    {
        if external_id.is_empty() {
            return None;
        }
        match &self.project {
            Some(p) => match find_model_by_external_id(&p.models, &external_id.to_owned()) {
                Some(i) => Some(&p.models[i]),
                None => None,
            },
            None => None,
        }
    }

    /// The models whose type tag is `kind`, in package order.
    pub fn get_models_of_type(&self, kind: &str) -> (r: Result<Vec<&Model>, Error>)
        ensures
            match r {
                Ok(v) => self.loaded() && referents(v@) == of_type(self.models(), kind@),
                Err(e) => !self.loaded() && e == Error::NotLoaded,
            },
    {
        let models = match &self.project {
            Some(p) => &p.models,
            None => {
                return Err(Error::NotLoaded);
            },
        };
        let tag = kind.to_owned();
        let mut out: Vec<&Model> = Vec::new();
        let mut i: usize = 0;
        assert(models@.subrange(0, 0) =~= Seq::<Model>::empty());
        assert(referents(out@) =~= of_type(models@.subrange(0, 0), kind@));
        while i < models.len()
            invariant
                i <= models@.len(),
                tag@ == kind@,
                referents(out@) == of_type(models@.subrange(0, i as int), kind@),
            decreases models@.len() - i,
        {
            let ghost prefix = models@.subrange(0, i as int);
            let ghost next = models@.subrange(0, i + 1);
            let ghost before = referents(out@);
            proof {
                assert(next =~= prefix.push(models@[i as int]));
                assert(next.drop_last() =~= prefix);
                reveal(Seq::filter);
            }
            if models[i].type_tag() == tag {
                out.push(&models[i]);
                assert(referents(out@) =~= before.push(models@[i as int]));
            }
            i += 1;
        }
        assert(models@.subrange(0, i as int) =~= models@);
        Ok(out)
    }

    /// All models, in package order.
    pub fn get_all_models(&self) -> (r: Result<Vec<&Model>, Error>)
        ensures
            match r {
                Ok(v) => self.loaded() && referents(v@) == self.models(),
                Err(e) => !self.loaded() && e == Error::NotLoaded,
            },
    {
        let models = match &self.project {
            Some(p) => &p.models,
            None => {
                return Err(Error::NotLoaded);
            },
        };
        let mut out: Vec<&Model> = Vec::new();
        let mut i: usize = 0;
        while i < models.len()
            invariant
                i <= models@.len(),
                out@.len() == i,
                forall|k: int| 0 <= k < i ==> *(#[trigger] out@[k]) == models@[k],
            decreases models@.len() - i,
        {
            out.push(&models[i]);
            i += 1;
        }
        assert(referents(out@) =~= models@);
        Ok(out)
    }

    /// The path from the root of the hierarchy to the first node, in
    /// depth-first order, that stands for `model`.
    pub fn hierarchy_path_of(&self, model: &Model) -> (r: Result<Option<Vec<usize>>, Error>)
        ensures
            match r {
                Ok(Some(p)) => self.hierarchy() matches Some(root) && find_path(root, model.id@)
                    == Some(p@),
                Ok(None) => self.hierarchy() matches Some(root) && find_path(root, model.id@)
                    is None,
                Err(e) => !self.loaded() && e == Error::NotLoaded,
            },
    {
        match &self.project {
            Some(p) => Ok(search(&p.hierarchy, &model.id)),
            None => Err(Error::NotLoaded),
        }
    }

    /// The hierarchy node that `path` leads to from the root.
    pub fn hierarchy_at(&self, path: &Vec<usize>) -> (r: Result<Option<&HierarchyNode>, Error>)
        ensures
            match r {
                Ok(Some(n)) => self.hierarchy() matches Some(root) && node_at(root, path@) == Some(
                    *n,
                ),
                Ok(None) => self.hierarchy() matches Some(root) && node_at(root, path@) is None,
                Err(e) => !self.loaded() && e == Error::NotLoaded,
            },
    {
        match &self.project {
            Some(p) => Ok(descend(&p.hierarchy, path)),
            None => Err(Error::NotLoaded),
        }
    }

    /// The identifiers of the children of the user folder `folder_id`, in
    /// the order of the hierarchy.
    pub fn get_entity_ids_from_folder(&self, folder_id: &str) -> (r: Result<Vec<String>, Error>)
        ensures
            match r {
                Ok(ids) => self.hierarchy() matches Some(root) && folder_children(
                    self.models(),
                    root,
                    folder_id@,
                ) == Ok::<Seq<Seq<char>>, Fault>(ids.deep_view()),
                Err(e) => match self.hierarchy() {
                    Some(root) => folder_children(self.models(), root, folder_id@) == Err::<
                        Seq<Seq<char>>,
                        Fault,
                    >(e@),
                    None => e == Error::NotLoaded,
                },
            },
    {
        let project = match &self.project {
            Some(p) => p,
            None => {
                return Err(Error::NotLoaded);
            },
        };
        let id = folder_id.to_owned();
        let model = match find_model(&project.models, &id) {
            Some(i) => &project.models[i],
            None => {
                return Err(Error::NotFound(id));
            },
        };
        match &model.kind {
            ModelKind::UserFolder => {},
            _ => {
                return Err(Error::NotAFolder(id));
            },
        }
        let path = match search(&project.hierarchy, &id) {
            Some(p) => p,
            None => {
                return Err(Error::NotFound(id));
            },
        };
        proof {
            lemma_find_path_leads(project.hierarchy, id@);
        }
        let node = descend(&project.hierarchy, &path).unwrap();
        let mut out: Vec<String> = Vec::new();
        match &node.children {
            None => {},
            Some(kids) => {
                let mut i: usize = 0;
                while i < kids.len()
                    invariant
                        i <= kids@.len(),
                        out@.len() == i,
                        forall|k: int| 0 <= k < i ==> (#[trigger] out@[k])@ == kids@[k].id@,
                    decreases kids@.len() - i,
                {
                    out.push(kids[i].id.clone());
                    i += 1;
                }
            },
        }
        assert(out.deep_view() =~= node_ids(children_of(*node)));
        Ok(out)
    }

    /// The models of the children of the user folder `folder_id`, in the
    /// order of the hierarchy.
    pub fn get_entities_from_folder(&self, folder_id: &str) -> (r: Result<Vec<&Model>, Error>)
        ensures
            match r {
                Ok(v) => self.hierarchy() matches Some(root) && (folder_children(
                    self.models(),
                    root,
                    folder_id@,
                ) matches Ok(ids) && models_of(self.models(), ids) == Ok::<Seq<Model>, Fault>(
                    referents(v@),
                )),
                Err(e) => match self.hierarchy() {
                    Some(root) => match folder_children(self.models(), root, folder_id@) {
                        Ok(ids) => models_of(self.models(), ids) == Err::<Seq<Model>, Fault>(e@),
                        Err(f) => e@ == f,
                    },
                    None => e == Error::NotLoaded,
                },
            },
    {
        let ids = match self.get_entity_ids_from_folder(folder_id) {
            Ok(ids) => ids,
            Err(e) => {
                return Err(e);
            },
        };
        let models = match &self.project {
            Some(p) => &p.models,
            None => {
                return Err(Error::NotLoaded);
            },
        };
        let ghost all = ids.deep_view();
        let mut out: Vec<&Model> = Vec::new();
        let mut i: usize = 0;
        assert(all.subrange(0, 0) =~= Seq::<Seq<char>>::empty());
        assert(referents(out@) =~= Seq::<Model>::empty());
        while i < ids.len()
            invariant
                i <= ids@.len(),
                all == ids.deep_view(),
                models@ == self.models(),
                self.hierarchy() matches Some(root) && folder_children(
                    self.models(),
                    root,
                    folder_id@,
                ) == Ok::<Seq<Seq<char>>, Fault>(all),
                models_of(models@, all.subrange(0, i as int)) == Ok::<Seq<Model>, Fault>(
                    referents(out@),
                ),
            decreases ids@.len() - i,
        {
            let ghost next = all.subrange(0, i + 1);
            assert(next.drop_last() =~= all.subrange(0, i as int));
            assert(next.last() == ids@[i as int]@);
            let ghost before = referents(out@);
            match find_model(models, &ids[i]) {
                Some(k) => {
                    out.push(&models[k]);
                    assert(referents(out@) =~= before.push(models@[k as int]));
                },
                None => {
                    proof {
                        lemma_models_of_fails(models@, all, i + 1);
                    }
                    return Err(Error::NotFound(ids[i].clone()));
                },
            }
            i += 1;
        }
        assert(all.subrange(0, i as int) =~= all);
        Ok(out)
    }
}

/// Where the models of a prefix of the identifiers are not found, those of
/// the whole list are not found either, for the same identifier.
proof fn lemma_models_of_fails(ms: Seq<Model>, ids: Seq<Seq<char>>, n: int)
    requires
        0 <= n <= ids.len(),
        models_of(ms, ids.subrange(0, n)) is Err,
    ensures
        models_of(ms, ids) == models_of(ms, ids.subrange(0, n)),
    decreases ids.len() - n,
{
    if n == ids.len() {
        assert(ids.subrange(0, n) =~= ids);
    } else {
        let next = ids.subrange(0, n + 1);
        assert(next.drop_last() =~= ids.subrange(0, n));
        lemma_models_of_fails(ms, ids, n + 1);
    }
}

} // verus!

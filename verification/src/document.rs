use vstd::prelude::*;

verus! {

/// Ambient package facts supplied read-only by the host. `name` and
/// `version` are required and must be non-empty; the other facts are
/// optional, and an empty string means the fact is absent.
#[derive(Debug)]
pub struct PackageMetadata {
    pub name: String,
    pub version: String,
    pub description: String,
    pub repository_url: String,
    pub homepage_url: String,
}

/// The mathematical value of the ambient package facts.
#[verifier::ext_equal]
pub ghost struct MetadataView {
    pub name: Seq<char>,
    pub version: Seq<char>,
    pub description: Seq<char>,
    pub repository_url: Seq<char>,
    pub homepage_url: Seq<char>,
}

impl View for PackageMetadata {
    type V = MetadataView;

    open spec fn view(&self) -> MetadataView {
        MetadataView {
            name: self.name@,
            version: self.version@,
            description: self.description@,
            repository_url: self.repository_url@,
            homepage_url: self.homepage_url@,
        }
    }
}

/// The required package facts are present: name and version are non-empty.
pub open spec fn metadata_complete(m: MetadataView) -> bool {
    m.name.len() > 0 && m.version.len() > 0
}

/// A single contact block of the document metadata: a fixed label and the
/// URL taken from the package facts.
#[derive(Debug)]
pub struct Contact {
    pub label: String,
    pub url: String,
}

/// The mathematical value of a contact block.
#[verifier::ext_equal]
pub ghost struct ContactView {
    pub label: Seq<char>,
    pub url: Seq<char>,
}

impl View for Contact {
    type V = ContactView;

    open spec fn view(&self) -> ContactView {
        ContactView { label: self.label@, url: self.url@ }
    }
}

/// One registered operation: the derived operation identifier and the
/// specification fragment contributed for it.
#[derive(Debug)]
pub struct Operation {
    pub id: String,
    pub fragment: String,
}

/// The mathematical value of a registered operation.
#[verifier::ext_equal]
pub ghost struct OperationView {
    pub id: Seq<char>,
    pub fragment: Seq<char>,
}

impl View for Operation {
    type V = OperationView;

    open spec fn view(&self) -> OperationView {
        OperationView { id: self.id@, fragment: self.fragment@ }
    }
}

/// The views of a sequence of operations.
pub open spec fn ops_view(s: Seq<Operation>) -> Seq<OperationView> {
    s.map_values(|o: Operation| o@)
}

/// The assembled artifact: package metadata plus the registered operations,
/// in registration order.
#[derive(Debug)]
pub struct SpecificationDocument {
    pub title: String,
    pub version: String,
    pub description: Option<String>,
    pub contact: Option<Contact>,
    pub operations: Vec<Operation>,
}

/// The mathematical value of a specification document.
#[verifier::ext_equal]
pub ghost struct DocumentView {
    pub title: Seq<char>,
    pub version: Seq<char>,
    pub description: Option<Seq<char>>,
    pub contact: Option<ContactView>,
    pub operations: Seq<OperationView>,
}

impl View for SpecificationDocument {
    type V = DocumentView;

    open spec fn view(&self) -> DocumentView {
        DocumentView {
            title: self.title@,
            version: self.version@,
            description: match self.description {
                Some(d) => Some(d@),
                None => None,
            },
            contact: match self.contact {
                Some(c) => Some(c@),
                None => None,
            },
            operations: ops_view(self.operations@),
        }
    }
}

/// The index of the first operation registered under `id`, or -1 when no
/// operation carries that identifier.
pub open spec fn op_index(ops: Seq<OperationView>, id: Seq<char>) -> int
    decreases ops.len(),
{
    if ops.len() == 0 {
        -1
    } else if ops[0].id == id {
        0
    } else {
        let rest = op_index(ops.drop_first(), id);
        if rest == -1 {
            -1
        } else {
            rest + 1
        }
    }
}

/// What `op_index` finds: either no operation carries the identifier, or
/// the index is the first position that does.
pub proof fn lemma_op_index(ops: Seq<OperationView>, id: Seq<char>)
    ensures
        op_index(ops, id) == -1 ==> forall|j: int|
            0 <= j < ops.len() ==> (#[trigger] ops[j]).id != id,
        op_index(ops, id) != -1 ==> {
            &&& 0 <= op_index(ops, id) < ops.len()
            &&& ops[op_index(ops, id)].id == id
            &&& forall|j: int| 0 <= j < op_index(ops, id) ==> (#[trigger] ops[j]).id != id
        },
    decreases ops.len(),
{
    if ops.len() > 0 && !(ops[0].id == id) {
        lemma_op_index(ops.drop_first(), id);
        assert forall|j: int| 1 <= j < ops.len() implies ops.drop_first()[j - 1] == ops[j] by {}
    }
}

/// Registration of one operation into the accumulated sequence: a collision
/// with an already registered identifier overwrites that entry in place
/// (last write wins); otherwise the entry is appended.
pub open spec fn spec_register(
    ops: Seq<OperationView>,
    id: Seq<char>,
    fragment: Seq<char>,
) -> Seq<OperationView> {
    let entry = OperationView { id, fragment };
    if op_index(ops, id) == -1 {
        ops.push(entry)
    } else {
        ops.update(op_index(ops, id), entry)
    }
}

/// The contact block derived from the optional repository and homepage
/// facts. Each non-empty fact produces a block with its fixed label, and
/// the later-evaluated homepage overwrites the repository: only one contact
/// can exist even when both sources supply one.
pub open spec fn spec_contact(meta: MetadataView) -> Option<ContactView> {
    if meta.homepage_url.len() > 0 {
        Some(ContactView { label: "Homepage"@, url: meta.homepage_url })
    } else if meta.repository_url.len() > 0 {
        Some(ContactView { label: "Repository"@, url: meta.repository_url })
    } else {
        None
    }
}

/// The document assembled from the registered operations and the ambient
/// package facts: title from the package name, version from the package
/// version, the description only if non-empty, and the contact block of
/// `spec_contact`.
pub open spec fn spec_document(ops: Seq<OperationView>, meta: MetadataView) -> DocumentView {
    DocumentView {
        title: meta.name,
        version: meta.version,
        description: if meta.description.len() > 0 {
            Some(meta.description)
        } else {
            None
        },
        contact: spec_contact(meta),
        operations: ops,
    }
}

/// The shared generator object: a single-use accumulator of operation
/// registrations, owned by one generation pass and consumed exactly once.
#[derive(Debug)]
pub struct Generator {
    operations: Vec<Operation>,
}

impl View for Generator {
    type V = Seq<OperationView>;

    closed spec fn view(&self) -> Seq<OperationView> {
        ops_view(self.operations@)
    }
}

impl Generator {
    /// A fresh accumulator with no registered operations.
    pub fn new() -> (g: Generator)
        ensures
            g@ == Seq::<OperationView>::empty(),
    {
        let g = Generator { operations: Vec::new() };
        proof {
            assert(g@ =~= Seq::<OperationView>::empty());
        }
        g
    }

    /// Registers one operation fragment under `operation_id`. A collision
    /// with an already registered identifier overwrites that entry in place
    /// (last write wins).
    pub fn register(&mut self, operation_id: String, fragment: String)
        ensures
            final(self)@ == spec_register(old(self)@, operation_id@, fragment@),
    {
        proof {
            lemma_op_index(self@, operation_id@);
        }
        let n = self.operations.len();
        let mut k: usize = 0;
        while k < n
            invariant
                n == self.operations@.len(),
                k <= n,
                *self == *old(self),
                forall|j: int| 0 <= j < k ==> (#[trigger] self@[j]).id != operation_id@,
            decreases n - k,
        {
            if self.operations[k].id == operation_id {
                proof {
                    assert(self@[k as int].id == operation_id@);
                    lemma_op_index(self@, operation_id@);
                    assert(op_index(self@, operation_id@) == k as int);
                }
                let ghost ops0 = self@;
                let entry = Operation { id: operation_id, fragment };
                let ghost entry_v = entry@;
                self.operations.remove(k);
                self.operations.insert(k, entry);
                proof {
                    assert(self@ =~= ops0.update(k as int, entry_v));
                }
                return ;
            }
            k = k + 1;
        }
        let entry = Operation { id: operation_id, fragment };
        let ghost entry_v = entry@;
        self.operations.push(entry);
        proof {
            assert(op_index(old(self)@, entry_v.id) == -1) by {
                lemma_op_index(old(self)@, entry_v.id);
            }
            assert(self@ =~= old(self)@.push(entry_v));
        }
    }

    /// Consumes the accumulator: attaches the package metadata to the
    /// registered operations and produces the specification document.
    pub fn finalize(self, meta: &PackageMetadata) -> (doc: SpecificationDocument)
        ensures
            doc@ == spec_document(self@, meta@),
    {
        let description: Option<String> = if !meta.description.as_str().is_empty() {
            Some(meta.description.clone())
        } else {
            None
        };
        let mut contact: Option<Contact> = None;
        if !meta.repository_url.as_str().is_empty() {
            contact = Some(
                Contact { label: "Repository".to_owned(), url: meta.repository_url.clone() },
            );
        }
        if !meta.homepage_url.as_str().is_empty() {
            contact = Some(Contact { label: "Homepage".to_owned(), url: meta.homepage_url.clone() });
        }
        let doc = SpecificationDocument {
            title: meta.name.clone(),
            version: meta.version.clone(),
            description,
            contact,
            operations: self.operations,
        };
        proof {
            assert(doc@ =~= spec_document(self@, meta@));
        }
        doc
    }
}

} // verus!

//! The LVM management bus, modelled as data: a snapshot of the objects
//! the bus exposes — volume groups, physical volumes, logical volumes —
//! with their properties as they were fetched. The fetching itself is
//! input; everything that reads or cross-references the snapshot is here.
//!
//! A property a fetch did not return stays absent, and reading it reports
//! the same failure the live bus would.

use vstd::prelude::*;

verus! {

/// A property fetch that did not answer.
#[derive(Debug, PartialEq, Eq, Clone)]
pub struct MethodError {
    /// The property or method that was asked for.
    pub method: String,
    /// The bus interface of the object it was asked of.
    pub variant: String,
    /// The object node it was asked of.
    pub id: u32,
    /// Why the bus did not answer.
    pub cause: String,
}

impl MethodError {
    pub fn new(method: &str, variant: &str, id: u32, cause: &str) -> (r: MethodError)
        ensures
            r.method@ == method@,
            r.variant@ == variant@,
            r.id == id,
            r.cause@ == cause@,
    {
        MethodError {
            method: String::from_str(method),
            variant: String::from_str(variant),
            id,
            cause: String::from_str(cause),
        }
    }

    /// The failure, written out for a reader.
    pub fn message(&self) -> (r: String)
        ensures
            r@ == spec_method_error_message(*self),
    {
        let r = String::from_str("failed to call ").concat(self.method.as_str()).concat(
            " from ",
        ).concat(self.variant.as_str()).concat(" ").concat(
            crate::common::u64_to_string(self.id as u64).as_str(),
        );
        proof {
            assert(r@ =~= spec_method_error_message(*self));
        }
        r
    }
}

/// The sentence `MethodError::message` renders: the method, the object's
/// interface, and the node number.
pub open spec fn spec_method_error_message(e: MethodError) -> Seq<char> {
    "failed to call "@ + e.method@ + " from "@ + e.variant@ + " "@
        + crate::common::spec_u64_chars(e.id as int)
}

/// What reading the snapshot can report.
#[derive(Debug, PartialEq, Eq, Clone)]
pub enum Error {
    /// The property was not in the snapshot.
    GetProperty(MethodError),
}

impl Error {
    /// The failure, written out for a reader.
    pub fn message(&self) -> (r: String)
        ensures
            *self matches Error::GetProperty(e) ==> r@ == "failed to get property: "@
                + spec_method_error_message(e),
    {
        match self {
            Error::GetProperty(e) => {
                let r = String::from_str("failed to get property: ").concat(
                    e.message().as_str(),
                );
                r
            },
        }
    }
}

/// A logical volume's properties as fetched from the bus.
pub struct LvNode {
    pub node: u32,
    pub name: Option<String>,
    pub uuid: Option<String>,
    pub path: Option<String>,
    pub size_bytes: Option<u64>,
    pub vg: Option<String>,
}

/// A physical volume's properties as fetched from the bus.
pub struct PvNode {
    pub node: u32,
    pub name: Option<String>,
    pub uuid: Option<String>,
    pub size_bytes: Option<u64>,
}

/// A volume group's properties as fetched from the bus.
pub struct VgNode {
    pub node: u32,
    pub name: Option<String>,
    pub uuid: Option<String>,
    pub extent_size_bytes: Option<u64>,
    pub extent_count: Option<u64>,
    pub extent_free_count: Option<u64>,
    pub lv_count: Option<u64>,
    pub pv_count: Option<u64>,
    /// Object paths of the group's logical volumes.
    pub lvs: Vec<String>,
    /// Object paths of the group's physical volumes.
    pub pvs: Vec<String>,
}

/// A connection's worth of logical volumes.
pub struct LvConn {
    pub nodes: Vec<LvNode>,
}

impl LvConn {
    pub fn new(nodes: Vec<LvNode>) -> (r: LvConn)
        ensures
            r.nodes == nodes,
    {
        LvConn { nodes }
    }

    /// The volume at a node of the snapshot.
    pub fn connect(&self, i: usize) -> (r: LvPath)
        requires
            i < self.nodes@.len(),
        ensures
            r.node == self.nodes@[i as int],
    {
        LvPath { node: self.nodes[i].clone_node() }
    }

    pub fn len(&self) -> (n: usize)
        ensures
            n == self.nodes@.len(),
    {
        self.nodes.len()
    }
}

/// One logical volume under a connection.
pub struct LvPath {
    pub node: LvNode,
}

impl LvPath {
    /// The volume's device path, as the bus reported it.
    pub fn path(&self) -> (r: Result<String, Error>)
        ensures
            match r {
                Ok(p) => self.node.path == Some(p),
                Err(_) => self.node.path is None,
            },
    {
        match &self.node.path {
            Some(p) => Ok(p.clone()),
            None => Err(Error::GetProperty(MethodError::new("Path", "com.redhat.lvmdbus1.Lv", self.node.node, "property absent from snapshot"))),
        }
    }

    /// The volume's size in bytes.
    pub fn size_bytes(&self) -> (r: Result<u64, Error>)
        ensures
            match r {
                Ok(v) => self.node.size_bytes == Some(v),
                Err(_) => self.node.size_bytes is None,
            },
    {
        match self.node.size_bytes {
            Some(v) => Ok(v),
            None => Err(Error::GetProperty(MethodError::new("SizeBytes", "com.redhat.lvmdbus1.Lv", self.node.node, "property absent from snapshot"))),
        }
    }

    /// The object path of the volume's group.
    pub fn vg(&self) -> (r: Result<String, Error>)
        ensures
            match r {
                Ok(p) => self.node.vg == Some(p),
                Err(_) => self.node.vg is None,
            },
    {
        match &self.node.vg {
            Some(p) => Ok(p.clone()),
            None => Err(Error::GetProperty(MethodError::new("Vg", "com.redhat.lvmdbus1.Lv", self.node.node, "property absent from snapshot"))),
        }
    }

    /// The volume's name.
    pub fn name(&self) -> (r: Result<String, Error>)
        ensures
            match r {
                Ok(p) => self.node.name == Some(p),
                Err(_) => self.node.name is None,
            },
    {
        match &self.node.name {
            Some(p) => Ok(p.clone()),
            None => Err(Error::GetProperty(MethodError::new("Name", "com.redhat.lvmdbus1.Lv", self.node.node, "property absent from snapshot"))),
        }
    }

    /// The volume's UUID.
    pub fn uuid(&self) -> (r: Result<String, Error>)
        ensures
            match r {
                Ok(p) => self.node.uuid == Some(p),
                Err(_) => self.node.uuid is None,
            },
    {
        match &self.node.uuid {
            Some(p) => Ok(p.clone()),
            None => Err(Error::GetProperty(MethodError::new("Uuid", "com.redhat.lvmdbus1.Lv", self.node.node, "property absent from snapshot"))),
        }
    }
}

/// A connection's worth of physical volumes.
pub struct PvConn {
    pub nodes: Vec<PvNode>,
}

impl PvConn {
    pub fn new(nodes: Vec<PvNode>) -> (r: PvConn)
        ensures
            r.nodes == nodes,
    {
        PvConn { nodes }
    }

    pub fn connect(&self, i: usize) -> (r: PvPath)
        requires
            i < self.nodes@.len(),
        ensures
            r.node == self.nodes@[i as int],
    {
        PvPath { node: self.nodes[i].clone_node() }
    }

    pub fn len(&self) -> (n: usize)
        ensures
            n == self.nodes@.len(),
    {
        self.nodes.len()
    }
}

/// One physical volume under a connection.
pub struct PvPath {
    pub node: PvNode,
}

impl PvPath {
    /// The volume's size in bytes.
    pub fn size_bytes(&self) -> (r: Result<u64, Error>)
        ensures
            match r {
                Ok(v) => self.node.size_bytes == Some(v),
                Err(_) => self.node.size_bytes is None,
            },
    {
        match self.node.size_bytes {
            Some(v) => Ok(v),
            None => Err(Error::GetProperty(MethodError::new("SizeBytes", "com.redhat.lvmdbus1.Pv", self.node.node, "property absent from snapshot"))),
        }
    }

    /// The volume's device path, which the bus calls its name.
    pub fn name(&self) -> (r: Result<String, Error>)
        ensures
            match r {
                Ok(p) => self.node.name == Some(p),
                Err(_) => self.node.name is None,
            },
    {
        match &self.node.name {
            Some(p) => Ok(p.clone()),
            None => Err(Error::GetProperty(MethodError::new("Name", "com.redhat.lvmdbus1.Pv", self.node.node, "property absent from snapshot"))),
        }
    }

    /// The volume's UUID.
    pub fn uuid(&self) -> (r: Result<String, Error>)
        ensures
            match r {
                Ok(p) => self.node.uuid == Some(p),
                Err(_) => self.node.uuid is None,
            },
    {
        match &self.node.uuid {
            Some(p) => Ok(p.clone()),
            None => Err(Error::GetProperty(MethodError::new("Uuid", "com.redhat.lvmdbus1.Pv", self.node.node, "property absent from snapshot"))),
        }
    }
}

/// A connection's worth of volume groups.
pub struct VgConn {
    pub nodes: Vec<VgNode>,
}

impl VgConn {
    pub fn new(nodes: Vec<VgNode>) -> (r: VgConn)
        ensures
            r.nodes == nodes,
    {
        VgConn { nodes }
    }

    pub fn connect(&self, i: usize) -> (r: VgPath)
        requires
            i < self.nodes@.len(),
        ensures
            r.node.node == self.nodes@[i as int].node,
            r.node.name == self.nodes@[i as int].name,
            r.node.uuid == self.nodes@[i as int].uuid,
            r.node.extent_size_bytes == self.nodes@[i as int].extent_size_bytes,
            r.node.extent_count == self.nodes@[i as int].extent_count,
            r.node.extent_free_count == self.nodes@[i as int].extent_free_count,
            r.node.lv_count == self.nodes@[i as int].lv_count,
            r.node.pv_count == self.nodes@[i as int].pv_count,
            r.node.lvs@ == self.nodes@[i as int].lvs@,
            r.node.pvs@ == self.nodes@[i as int].pvs@,
    {
        VgPath { node: self.nodes[i].clone_node() }
    }

    pub fn len(&self) -> (n: usize)
        ensures
            n == self.nodes@.len(),
    {
        self.nodes.len()
    }
}

/// One volume group under a connection.
pub struct VgPath {
    pub node: VgNode,
}

impl VgPath {
    /// How many extents the group has.
    pub fn extent_count(&self) -> (r: Result<u64, Error>)
        ensures
            match r {
                Ok(v) => self.node.extent_count == Some(v),
                Err(_) => self.node.extent_count is None,
            },
    {
        match self.node.extent_count {
            Some(v) => Ok(v),
            None => Err(Error::GetProperty(MethodError::new("ExtentCount", "com.redhat.lvmdbus1.Vg", self.node.node, "property absent from snapshot"))),
        }
    }

    /// The byte size of one extent.
    pub fn extent_size_bytes(&self) -> (r: Result<u64, Error>)
        ensures
            match r {
                Ok(v) => self.node.extent_size_bytes == Some(v),
                Err(_) => self.node.extent_size_bytes is None,
            },
    {
        match self.node.extent_size_bytes {
            Some(v) => Ok(v),
            None => Err(Error::GetProperty(MethodError::new("ExtentSizeBytes", "com.redhat.lvmdbus1.Vg", self.node.node, "property absent from snapshot"))),
        }
    }

    /// How many extents are free.
    pub fn extent_free_count(&self) -> (r: Result<u64, Error>)
        ensures
            match r {
                Ok(v) => self.node.extent_free_count == Some(v),
                Err(_) => self.node.extent_free_count is None,
            },
    {
        match self.node.extent_free_count {
            Some(v) => Ok(v),
            None => Err(Error::GetProperty(MethodError::new("FreeCount", "com.redhat.lvmdbus1.Vg", self.node.node, "property absent from snapshot"))),
        }
    }

    /// How many logical volumes the group holds.
    pub fn lv_count(&self) -> (r: Result<u64, Error>)
        ensures
            match r {
                Ok(v) => self.node.lv_count == Some(v),
                Err(_) => self.node.lv_count is None,
            },
    {
        match self.node.lv_count {
            Some(v) => Ok(v),
            None => Err(Error::GetProperty(MethodError::new("LvCount", "com.redhat.lvmdbus1.Vg", self.node.node, "property absent from snapshot"))),
        }
    }

    /// How many physical volumes back the group.
    pub fn pv_count(&self) -> (r: Result<u64, Error>)
        ensures
            match r {
                Ok(v) => self.node.pv_count == Some(v),
                Err(_) => self.node.pv_count is None,
            },
    {
        match self.node.pv_count {
            Some(v) => Ok(v),
            None => Err(Error::GetProperty(MethodError::new("PvCount", "com.redhat.lvmdbus1.Vg", self.node.node, "property absent from snapshot"))),
        }
    }

    /// The object paths of the group's logical volumes.
    pub fn lvs(&self) -> (r: Vec<String>)
        ensures
            r@ == self.node.lvs@,
    {
        clone_strings(&self.node.lvs)
    }

    /// The object paths of the group's physical volumes.
    pub fn pvs(&self) -> (r: Vec<String>)
        ensures
            r@ == self.node.pvs@,
    {
        clone_strings(&self.node.pvs)
    }

    /// The group's name.
    pub fn name(&self) -> (r: Result<String, Error>)
        ensures
            match r {
                Ok(p) => self.node.name == Some(p),
                Err(_) => self.node.name is None,
            },
    {
        match &self.node.name {
            Some(p) => Ok(p.clone()),
            None => Err(Error::GetProperty(MethodError::new("Name", "com.redhat.lvmdbus1.Vg", self.node.node, "property absent from snapshot"))),
        }
    }
}

/// A copy of a string list.
pub fn clone_strings(v: &Vec<String>) -> (r: Vec<String>)
    ensures
        r@ == v@,
{
    let n = v.len();
    let mut out: Vec<String> = Vec::new();
    let mut i: usize = 0;
    while i < n
        invariant
            n == v@.len(),
            i <= n,
            out@ == v@.subrange(0, i as int),
        decreases n - i,
    {
        out.push(v[i].clone());
        i = i + 1;
    }
    proof {
        assert(out@ =~= v@);
    }
    out
}

impl LvNode {
    /// A copy of the node, field by field.
    pub fn clone_node(&self) -> (r: LvNode)
        ensures
            r == *self,
    {
        LvNode {
            node: self.node,
            name: clone_opt(&self.name),
            uuid: clone_opt(&self.uuid),
            path: clone_opt(&self.path),
            size_bytes: self.size_bytes,
            vg: clone_opt(&self.vg),
        }
    }
}

impl PvNode {
    /// A copy of the node, field by field.
    pub fn clone_node(&self) -> (r: PvNode)
        ensures
            r == *self,
    {
        PvNode {
            node: self.node,
            name: clone_opt(&self.name),
            uuid: clone_opt(&self.uuid),
            size_bytes: self.size_bytes,
        }
    }
}

impl VgNode {
    /// A copy of the node, field by field.
    pub fn clone_node(&self) -> (r: VgNode)
        ensures
            r.node == self.node,
            r.name == self.name,
            r.uuid == self.uuid,
            r.extent_size_bytes == self.extent_size_bytes,
            r.extent_count == self.extent_count,
            r.extent_free_count == self.extent_free_count,
            r.lv_count == self.lv_count,
            r.pv_count == self.pv_count,
            r.lvs@ == self.lvs@,
            r.pvs@ == self.pvs@,
    {
        VgNode {
            node: self.node,
            name: clone_opt(&self.name),
            uuid: clone_opt(&self.uuid),
            extent_size_bytes: self.extent_size_bytes,
            extent_count: self.extent_count,
            extent_free_count: self.extent_free_count,
            lv_count: self.lv_count,
            pv_count: self.pv_count,
            lvs: clone_exact(&self.lvs),
            pvs: clone_exact(&self.pvs),
        }
    }
}

/// A copy of an optional string.
pub fn clone_opt(v: &Option<String>) -> (r: Option<String>)
    ensures
        r == *v,
{
    match v {
        Some(s) => Some(s.clone()),
        None => None,
    }
}

/// A copy of a string list, element for element.
pub fn clone_exact(v: &Vec<String>) -> (r: Vec<String>)
    ensures
        r@ == v@,
{
    let n = v.len();
    let mut out: Vec<String> = Vec::new();
    let mut i: usize = 0;
    while i < n
        invariant
            n == v@.len(),
            i <= n,
            out@ == v@.subrange(0, i as int),
        decreases n - i,
    {
        out.push(v[i].clone());
        i = i + 1;
    }
    proof {
        assert(out@ =~= v@);
    }
    out
}

} // verus!

//! Attribute handles: the binding of one attribute of one device to its file.

use vstd::prelude::*;
use vstd::string::*;

verus! {

/// The directory that holds one subdirectory per device class, unless the
/// build names another.
pub const DRIVER_PATH: &'static str = "/sys/class/";

/// The directory that holds one subdirectory per device class: the one that
/// the build names in `env`, even an empty one, else `/sys/class/`.
pub fn get_driver_path(env: Option<&'static str>) -> (root: &'static str)
    ensures
        root@ == match env {
            Some(p) => p@,
            None => "/sys/class/"@,
        },
{
    match env {
        Some(path) => path,
        None => DRIVER_PATH,
    }
}

/// The path of the directory of a device class.
pub open spec fn class_path_text(root: Seq<char>, class_name: Seq<char>) -> Seq<char> {
    root + class_name
}

/// The path of the directory of a device instance.
pub open spec fn device_path_text(
    root: Seq<char>,
    class_name: Seq<char>,
    name: Seq<char>,
) -> Seq<char> {
    class_path_text(root, class_name) + "/"@ + name
}

/// The path of the file behind one attribute of a device instance.
pub open spec fn attribute_path_text(
    root: Seq<char>,
    class_name: Seq<char>,
    name: Seq<char>,
    attribute_name: Seq<char>,
) -> Seq<char> {
    device_path_text(root, class_name, name) + "/"@ + attribute_name
}

/// The path of the directory of a device class below `root`, which ends in
/// a separator.
pub fn class_path(root: &str, class_name: &str) -> (path: String)
    ensures
        path@ == class_path_text(root@, class_name@),
{
    let mut path = String::from_str(root);
    path.append(class_name);
    path
}

/// A handle on one attribute file. Its path never changes; every read and
/// write through it goes to the file anew.
#[derive(Debug, PartialEq, Eq)]
pub struct Attribute {
    path: String,
}

impl View for Attribute {
    type V = Seq<char>;

    /// The path that the handle is bound to.
    closed spec fn view(&self) -> Seq<char> {
        self.path@
    }
}

impl Attribute {
    /// Binds the attribute `attribute_name` of the device `name` of class
    /// `class_name` to its file below the directory `root`.
    pub fn from_sys_class(
        root: &str,
        class_name: &str,
        name: &str,
        attribute_name: &str,
    ) -> (handle: Attribute)
        ensures
            handle@ == attribute_path_text(root@, class_name@, name@, attribute_name@),
    {
        let mut path = class_path(root, class_name);
        path.append("/");
        path.append(name);
        path.append("/");
        path.append(attribute_name);
        Attribute { path }
    }

    /// The path of the file behind the handle.
    pub fn path(&self) -> (path: &String)
        ensures
            path@ == self@,
    {
        &self.path
    }
}

impl Clone for Attribute {
    /// A second handle on the same file.
    fn clone(&self) -> (copy: Attribute)
        ensures
            copy@ == self@,
    {
        Attribute { path: self.path.clone() }
    }
}

} // verus!

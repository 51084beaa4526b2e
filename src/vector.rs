use vstd::prelude::*;

verus! {

/// A triple of components: a point, a direction or a color.
#[derive(Clone, Copy)]
pub struct Vec3<T> {
    pub data: [T; 3],
}

impl<T: Copy> Vec3<T> {
    pub fn from_array(data: [T; 3]) -> (r: Self)
        ensures
            r.data@ == data@,
    {
        Vec3 { data }
    }

    pub fn get_data(&self) -> (r: [T; 3])
        ensures
            r@ == self.data@,
    {
        self.data
    }
}

} // verus!

//! The "About" page of the user interface.

use vstd::prelude::*;

verus! {

/// The page that says what the program is and who wrote it.
#[derive(Debug)]
pub struct AboutPage {}

/// The elements of a page.
#[derive(Debug)]
pub enum Element {
    Heading(&'static str),
    Separator,
    Label(&'static str),
}

impl Default for AboutPage {
    fn default() -> (page: AboutPage)
        ensures
            page == (AboutPage {  }),
    {
        AboutPage {  }
    }
}

impl AboutPage {
    /// Makes the page.
    pub fn new() -> (page: AboutPage)
        ensures
            page == (AboutPage {  }),
    {
        AboutPage {  }
    }

    /// What the page shows, from top to bottom.
    pub fn elements(&self) -> (elements: Vec<Element>)
        ensures
            elements@ == seq![
                Element::Heading("About Pyroclasm UI for Eruption"),
                Element::Separator,
                Element::Label("Authors:"),
                Element::Label("X3n0m0rph59 <x3n0m0rph59@gmail.com>"),
                Element::Label("The Eruption Development Team"),
                Element::Label("GPL3 or later"),
            ],
    {
        let mut elements: Vec<Element> = Vec::new();
        elements.push(Element::Heading("About Pyroclasm UI for Eruption"));
        elements.push(Element::Separator);
        elements.push(Element::Label("Authors:"));
        elements.push(Element::Label("X3n0m0rph59 <x3n0m0rph59@gmail.com>"));
        elements.push(Element::Label("The Eruption Development Team"));
        elements.push(Element::Label("GPL3 or later"));
        elements
    }
}

/// The page has a heading and a line below it, then names the authors and the license.
pub proof fn law_page_names_authors_and_license(page: AboutPage, elements: Vec<Element>)
    requires
        call_ensures(AboutPage::elements, (&page,), elements),
    ensures
        elements@.len() == 6,
        elements@[0] == Element::Heading("About Pyroclasm UI for Eruption"),
        elements@[1] == Element::Separator,
        elements@[2] == Element::Label("Authors:"),
        elements@[3] == Element::Label("X3n0m0rph59 <x3n0m0rph59@gmail.com>"),
        elements@[4] == Element::Label("The Eruption Development Team"),
        elements@[5] == Element::Label("GPL3 or later"),
{
}

} // verus!

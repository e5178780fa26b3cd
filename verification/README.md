# intersections

The data-handling core of a survey platform on intersectional experience: people
describe experiences ("nodes" such as *mother* or *gen x*) with a few statements and an
inclusivity score, communities collect them, and network graphs show how experiences
connect through the people who share them.

`src/` is the library, written in Verus and verified:

- `text`, `numbers`, `order`: string normalisation, decimal text of integers, text order
- `codes`, `accounts`: access codes, salts, password hashes and roles
- `lang`: interface languages and language-switch redirects
- `forms`, `survey`, `community`, `emails`: reading submitted forms, who may see and
  change what, and finding invitation addresses in free text
- `stats`: a community's members, experiences and inclusivity scores as surveys,
  transfers and deletions change them
- `aggregate`, `experience`, `links`, `graph`: aggregation of experiences per node and
  the Cytoscape.js graphs
- `translate`, `seed`: machine-translation batches, and the base nodes and
  demonstration experiences that fill a fresh database

`app/` is a small command-line front end: JSON in and out, standard input, and the
floating-point means and weights that the graphs carry.

`tests/` runs the library on concrete inputs.

# p2p_network_visualizer

A visualizer for a network of machines: each machine is a node of a graph,
drawn in a window, with links between nodes. A small web interface reports
nodes going down, coming up, or changing their attributes; graphs are loaded
from GraphML files and saved as GraphML or GEXF.

- `src/` is the library, written in Verus and verified: the graph's model
  (positions held in thousandths of a pixel), reading GraphML (with the
  placement of nodes that have no position), writing GraphML and GEXF, the
  rules by which nodes and links are added, deleted and edited, and how
  update requests change a node.
- `app/` is the program around it: the window, the file dialogs, reading and
  writing files, and the web server.
- `tests/` holds tests of the library on concrete graphs and documents.
